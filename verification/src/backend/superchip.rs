use vstd::prelude::*;

use core::ops::ControlFlow;

use super::chip8;
use super::defaults;
use super::error::BackendError;
use super::error::BackendErrorKind;
use super::instruction::Instruction;
use super::instruction::n_of;
use super::instruction::nn_of;
use super::instruction::nnn_of;
use super::instruction::op_of;
use super::instruction::x_of;
use super::instruction::y_of;
use super::interfaces;
use super::interfaces::DisplayModel;
use super::interfaces::DisplayOptions;
use super::interfaces::KeypadState;
use super::interfaces::model_wf;
use super::interfaces::scroll_down_model;
use super::interfaces::scroll_left_model;
use super::interfaces::scroll_right_model;
use super::model::Chip8Model;
use super::model::StepRes;
use super::model::chip8_step;
use super::model::chip8_wf;
use super::model::clear_display;
use super::model::word_at;
use super::model::write_block;
use super::sprite::draw_model;
use super::Options;
use super::Timers;

verus! {

pub const DISPLAY_BUFFER_HEIGHT: usize = 64;

pub const DISPLAY_BUFFER_WIDTH: usize = 128;

/// Size of the extended font: the classic font followed by ten hires
/// glyphs of ten bytes.
pub const FONT_SIZE: usize = 180;

/// How many bytes of persistent storage the flag opcodes see.
pub const PERSISTENT_STORAGE_SIZE: usize = 8;

pub const HIRES_CHARACTER_COUNT: usize = 10;

pub const HIRES_CHARACTER_SIZE: usize = 10;

/// Mathematical model of the extended core: the classic core without a
/// display of its own, the 128 by 64 display, and the halt latch.
pub ghost struct SuperModel {
    pub inner: Chip8Model,
    pub display: DisplayModel,
    pub program_exited: bool,
}

/// What one extended instruction did; the persistent storage rides
/// along since two opcodes exchange registers with it.
pub ghost enum SStepRes {
    Cont(SuperModel, Seq<u8>),
    Brk(SuperModel, Seq<u8>),
    Fail(BackendErrorKind),
}

pub open spec fn super_wf(m: SuperModel) -> bool {
    &&& chip8_wf(m.inner)
    &&& m.inner.display is None
    &&& model_wf(m.display)
    &&& m.display.width == 128
    &&& m.display.height == 64
}

/// Persistent storage with `v[0 ..= k]` written into its first bytes.
pub open spec fn store_flags(st: Seq<u8>, v: Seq<u8>, k: int) -> Seq<u8> {
    Seq::new(st.len(), |i: int| if 0 <= i <= k { v[i] } else { st[i] })
}

/// The register file with the first `k + 1` storage bytes loaded.
pub open spec fn load_flags(v: Seq<u8>, st: Seq<u8>, k: int) -> Seq<u8> {
    Seq::new(v.len(), |i: int| if 0 <= i <= k { st[i] } else { v[i] })
}

/// What one instruction of the extended core does: the hires and
/// drawing opcodes, the scrolls, the halt, the hires font selectors and
/// the flag exchange are handled here; everything else behaves as in
/// the classic core.
pub open spec fn super_step(
    s: SuperModel,
    st: Seq<u8>,
    pc: int,
    w: u16,
    kp: KeypadState,
    rnd: u8,
) -> SStepRes {
    let op = op_of(w);
    let x = x_of(w);
    let y = y_of(w);
    let n = n_of(w);
    let nn = nn_of(w);
    let nnn = nnn_of(w);
    let v = s.inner.v;
    if op == 0x0 && nnn == 0x0E0 {
        SStepRes::Cont(SuperModel { display: clear_display(s.display), ..s }, st)
    } else if op == 0x0 && nnn == 0x0FD {
        SStepRes::Brk(SuperModel { program_exited: true, ..s }, st)
    } else if op == 0x0 && nnn == 0x0FE {
        SStepRes::Cont(
            SuperModel { display: DisplayModel { half_resolution: true, ..s.display }, ..s },
            st,
        )
    } else if op == 0x0 && nnn == 0x0FF {
        SStepRes::Cont(
            SuperModel { display: DisplayModel { half_resolution: false, ..s.display }, ..s },
            st,
        )
    } else if op == 0x0 && nnn / 16 == 0x0C {
        SStepRes::Cont(SuperModel { display: scroll_down_model(s.display, n), ..s }, st)
    } else if op == 0x0 && nnn == 0x0FB {
        SStepRes::Cont(SuperModel { display: scroll_right_model(s.display, 4), ..s }, st)
    } else if op == 0x0 && nnn == 0x0FC {
        SStepRes::Cont(SuperModel { display: scroll_left_model(s.display, 4), ..s }, st)
    } else if op == 0xD {
        let len = if !s.display.half_resolution && n == 0 {
            32int
        } else {
            n
        };
        if s.inner.address + len >= 4096 {
            SStepRes::Fail(BackendErrorKind::MemoryOverflow)
        } else {
            let sprite = s.inner.memory.subrange(s.inner.address, s.inner.address + len);
            let (d2, cnt) = draw_model(s.display, v[x] as int, v[y] as int, sprite);
            let flag: u8 = if s.display.half_resolution {
                if cnt > 0 {
                    1
                } else {
                    0
                }
            } else {
                cnt as u8
            };
            SStepRes::Cont(
                SuperModel {
                    display: d2,
                    inner: Chip8Model { v: v.update(15, flag), ..s.inner },
                    ..s
                },
                st,
            )
        }
    } else if op == 0xF && nn == 0x29 {
        let code = v[x];
        if code < 16 {
            SStepRes::Cont(
                SuperModel { inner: Chip8Model { address: code * 5, ..s.inner }, ..s },
                st,
            )
        } else if code & 0x10 == 0 || code & 0x0F >= 10 {
            SStepRes::Fail(BackendErrorKind::UnrecognizedSprite)
        } else {
            SStepRes::Cont(
                SuperModel {
                    inner: Chip8Model { address: 80 + (code & 0x0F) * 10, ..s.inner },
                    ..s
                },
                st,
            )
        }
    } else if op == 0xF && nn == 0x30 {
        let code = v[x];
        if code >= 10 {
            SStepRes::Fail(BackendErrorKind::UnrecognizedSprite)
        } else {
            SStepRes::Cont(
                SuperModel {
                    inner: Chip8Model { address: 80 + code * 10, ..s.inner },
                    ..s
                },
                st,
            )
        }
    } else if op == 0xF && nn == 0x75 {
        let k = if x < 7 {
            x
        } else {
            7
        };
        SStepRes::Cont(s, store_flags(st, v, k))
    } else if op == 0xF && nn == 0x85 {
        let k = if x < 7 {
            x
        } else {
            7
        };
        SStepRes::Cont(
            SuperModel { inner: Chip8Model { v: load_flags(v, st, k), ..s.inner }, ..s },
            st,
        )
    } else {
        match chip8_step(s.inner, pc, w, kp, rnd) {
            StepRes::Cont(m) => SStepRes::Cont(SuperModel { inner: m, ..s }, st),
            StepRes::Brk(m) => SStepRes::Brk(SuperModel { inner: m, ..s }, st),
            StepRes::Fail(k) => SStepRes::Fail(k),
        }
    }
}

/// The result and state relation that the extended `execute` promises.
pub open spec fn super_step_post(
    pre: SuperModel,
    st_pre: Seq<u8>,
    pc: int,
    w: u16,
    kp: KeypadState,
    rnd: u8,
    post: SuperModel,
    st_post: Seq<u8>,
    r: Result<ControlFlow<()>, BackendError>,
) -> bool {
    match super_step(pre, st_pre, pc, w, kp, rnd) {
        SStepRes::Cont(m, st2) => r == Ok::<ControlFlow<()>, BackendError>(
            ControlFlow::Continue(()),
        ) && post == m && st_post == st2,
        SStepRes::Brk(m, st2) => r == Ok::<ControlFlow<()>, BackendError>(
            ControlFlow::Break(()),
        ) && post == m && st_post == st2,
        SStepRes::Fail(k) => r == Err::<ControlFlow<()>, BackendError>(
            BackendError { instruction: Some((pc as usize, Some(Instruction(w)))), kind: k },
        ) && post == pre && st_post == st_pre,
    }
}

/// What a whole extended tick produced.
pub ghost enum STickRes {
    Done(SuperModel, Seq<u8>),
    Failed(SuperModel, Seq<u8>, BackendError),
}

/// Run up to `n` fetch-execute steps of the extended core.
pub open spec fn super_run(
    s: SuperModel,
    st: Seq<u8>,
    n: int,
    kp: KeypadState,
    rnds: Seq<u8>,
) -> STickRes
    decreases n,
{
    if n <= 0 {
        STickRes::Done(s, st)
    } else if s.inner.index + 1 >= 4096 {
        STickRes::Failed(
            s,
            st,
            BackendError {
                instruction: Some((s.inner.index as usize, None)),
                kind: BackendErrorKind::MemoryOverflow,
            },
        )
    } else {
        let pc = s.inner.index;
        let w = word_at(s.inner.memory, pc);
        let s2 = SuperModel { inner: Chip8Model { index: pc + 2, ..s.inner }, ..s };
        match super_step(s2, st, pc, w, kp, rnds[0]) {
            SStepRes::Cont(m, st2) => super_run(m, st2, n - 1, kp, rnds.drop_first()),
            SStepRes::Brk(m, st2) => STickRes::Done(m, st2),
            SStepRes::Fail(k) => STickRes::Failed(
                s2,
                st,
                BackendError { instruction: Some((pc as usize, Some(Instruction(w)))), kind: k },
            ),
        }
    }
}

/// What a whole extended tick does: fail unloaded, decrement both
/// timers once, then run up to `n` instructions.
pub open spec fn super_tick(
    s: SuperModel,
    st: Seq<u8>,
    n: int,
    kp: KeypadState,
    rnds: Seq<u8>,
) -> STickRes {
    if !s.inner.loaded {
        STickRes::Failed(
            s,
            st,
            BackendError { instruction: None, kind: BackendErrorKind::ProgramNotLoaded },
        )
    } else {
        let s2 = SuperModel {
            inner: Chip8Model {
                delay: if s.inner.delay > 0 {
                    (s.inner.delay - 1) as u8
                } else {
                    0
                },
                sound: if s.inner.sound > 0 {
                    (s.inner.sound - 1) as u8
                } else {
                    0
                },
                ..s.inner
            },
            ..s
        };
        super_run(s2, st, n, kp, rnds)
    }
}

/// The extended core: the classic core without its own display, a
/// 128 by 64 display with a lores emulation mode, and the halt latch.
pub struct Backend {
    pub display_buffer: interfaces::DisplayBuffer<
        DISPLAY_BUFFER_WIDTH,
        DISPLAY_BUFFER_HEIGHT,
    >,
    pub inner: chip8::Backend,
    pub program_exited: bool,
}

impl View for Backend {
    type V = SuperModel;

    open spec fn view(&self) -> SuperModel {
        SuperModel {
            inner: self.inner@,
            display: self.display_buffer@,
            program_exited: self.program_exited,
        }
    }
}

impl Backend {
    pub open spec fn wf(self) -> bool {
        super_wf(self@)
    }

    /// An extended core with everything zeroed, its display in lores
    /// emulation, and nothing loaded.
    pub fn new(options: Options, display_options: DisplayOptions) -> (r: Self)
        ensures
            r.wf(),
            r@.inner.index == chip8::MEMORY_PADDING,
            !r@.inner.loaded,
            r@.inner.memory == Seq::new(4096nat, |i: int| 0u8),
            r@.inner.options == options,
            r@.inner.address == 0,
            r@.inner.v == Seq::new(16nat, |i: int| 0u8),
            r@.inner.stack == Seq::<u16>::empty(),
            r@.inner.delay == 0,
            r@.inner.sound == 0,
            !r@.program_exited,
            r@.display == (DisplayModel {
                width: 128,
                height: 64,
                grid: interfaces::blank_grid(128, 64),
                dirty: false,
                half_resolution: true,
                clip_sprites: display_options.clip_sprites,
                half_pixel_scrolling: display_options.half_pixel_scrolling,
            }),
    {
        let mut display_buffer = interfaces::DisplayBuffer::new(display_options);
        display_buffer.half_resolution = true;
        Self { display_buffer, inner: chip8::Backend::new(options, None), program_exited: false }
    }

    /// Load font and program as the classic core does, and place the
    /// hires glyphs after the classic font; a short font falls back to
    /// the built-in hires glyphs.
    pub fn load(&mut self, font: Option<&Vec<u8>>, program: &Vec<u8>) -> (r: Result<
        (),
        BackendError,
    >)
        requires
            old(self).wf(),
            match font {
                Some(f) => f@.len() >= chip8::FONT_SIZE,
                None => true,
            },
        ensures
            final(self).wf(),
            ({
                let fs = match font {
                    Some(f) => f@.take(chip8::FONT_SIZE as int),
                    None => defaults::backend_font().take(chip8::FONT_SIZE as int),
                };
                let hs = match font {
                    Some(f) => if f@.len() >= FONT_SIZE as int {
                        f@.subrange(chip8::FONT_SIZE as int, FONT_SIZE as int)
                    } else {
                        defaults::backend_font().subrange(chip8::FONT_SIZE as int, FONT_SIZE as int)
                    },
                    None => defaults::backend_font().subrange(
                        chip8::FONT_SIZE as int,
                        FONT_SIZE as int,
                    ),
                };
                if program@.len() > chip8::MEMORY_SIZE - chip8::MEMORY_PADDING {
                    r == Err::<(), BackendError>(
                        BackendError { instruction: None, kind: BackendErrorKind::ProgramInvalid },
                    ) && *final(self) == *old(self)
                } else {
                    r == Ok::<(), BackendError>(()) && final(self)@ == (SuperModel {
                        inner: Chip8Model {
                            memory: write_block(
                                write_block(
                                    write_block(old(self)@.inner.memory, 0, fs),
                                    chip8::MEMORY_PADDING as int,
                                    program@,
                                ),
                                chip8::FONT_SIZE as int,
                                hs,
                            ),
                            loaded: true,
                            ..old(self)@.inner
                        },
                        ..old(self)@
                    })
                }
            }),
    {
        let ghost hs = match font {
            Some(f) => if f@.len() >= FONT_SIZE as int {
                f@.subrange(chip8::FONT_SIZE as int, FONT_SIZE as int)
            } else {
                defaults::backend_font().subrange(chip8::FONT_SIZE as int, FONT_SIZE as int)
            },
            None => defaults::backend_font().subrange(chip8::FONT_SIZE as int, FONT_SIZE as int),
        };
        let r = self.inner.load(font, program);
        if r.is_err() {
            return r;
        }
        let ghost mem1 = self.inner@.memory;
        let built_in: Vec<u8>;
        let hires_source: &Vec<u8> = match font {
            Some(f) => {
                if f.len() >= FONT_SIZE {
                    f
                } else {
                    built_in = defaults::default_font();
                    &built_in
                }
            },
            None => {
                built_in = defaults::default_font();
                &built_in
            },
        };
        let mut i: usize = 0;
        while i < FONT_SIZE - chip8::FONT_SIZE
            invariant
                old(self).wf(),
                i <= 100,
                hires_source@.len() >= 180,
                hs == hires_source@.subrange(80, 180),
                hs.len() == 100,
                self.inner.memory@.len() == 4096,
                forall|k: int| 0 <= k < i ==> self.inner.memory@[80 + k] == hs[k],
                forall|k: int|
                    0 <= k < 4096 && !(80 <= k < 80 + i) ==> self.inner.memory@[k] == mem1[k],
                self@ == (SuperModel {
                    inner: Chip8Model {
                        memory: self.inner.memory@,
                        loaded: true,
                        ..old(self)@.inner
                    },
                    ..old(self)@
                }),
            decreases 100 - i,
        {
            let b = hires_source[chip8::FONT_SIZE + i];
            self.inner.memory[chip8::FONT_SIZE + i] = b;
            i += 1;
        }
        proof {
            assert(final(self)@.inner.memory =~= write_block(mem1, chip8::FONT_SIZE as int, hs));
        }
        Ok(())
    }

    /// The quirk options of the core, for the host to reconfigure.
    pub fn options_mut(&mut self) -> (r: &mut Options)
        ensures
            *r == old(self)@.inner.options,
            final(self)@ == (SuperModel {
                inner: Chip8Model { options: *final(r), ..old(self)@.inner },
                ..old(self)@
            }),
            old(self).wf() ==> final(self).wf(),
    {
        &mut self.inner.options
    }

    /// Unlatch the halt flag and reset the classic core.
    pub fn reset(&mut self)
        requires
            old(self).wf(),
        ensures
            final(self).wf(),
            final(self)@ == (SuperModel {
                inner: Chip8Model {
                    index: chip8::MEMORY_PADDING as int,
                    address: 0,
                    v: Seq::new(16nat, |i: int| 0u8),
                    stack: Seq::<u16>::empty(),
                    delay: 0,
                    sound: 0,
                    ..old(self)@.inner
                },
                program_exited: false,
                ..old(self)@
            }),
    {
        self.program_exited = false;
        self.inner.reset();
    }

    /// The timers of the classic core inside.
    pub fn timers(&self) -> (r: &Timers)
        ensures
            *r == (Timers { delay: self@.inner.delay, sound: self@.inner.sound }),
    {
        &self.inner.timers
    }
}

impl Backend {
    /// Execute one decoded instruction of the extended set. `index` is
    /// the address the word was fetched from; the program counter has
    /// already moved past it. The machine and the persistent storage
    /// move exactly as the extended step model says.
    #[verifier::rlimit(100)]
    pub(crate) fn execute(
        &mut self,
        index: usize,
        instruction: Instruction,
        keyboard_state: &KeypadState,
        persistent_storage: &mut Vec<u8>,
    ) -> (r: Result<ControlFlow<()>, BackendError>)
        requires
            old(self).wf(),
            old(self)@.inner.index <= 4096,
            index + 2 == old(self)@.inner.index,
            keyboard_state.wf(),
            old(persistent_storage)@.len() == PERSISTENT_STORAGE_SIZE,
        ensures
            final(self).wf(),
            final(persistent_storage)@.len() == PERSISTENT_STORAGE_SIZE,
            exists|rnd: u8|
                super_step_post(
                    old(self)@,
                    old(persistent_storage)@,
                    index as int,
                    instruction.0,
                    *keyboard_state,
                    rnd,
                    final(self)@,
                    final(persistent_storage)@,
                    r,
                ),
    {
        let ghost w = instruction.0;
        let ghost kp = *keyboard_state;
        let mut st: Vec<u8> = Vec::new();
        core::mem::swap(persistent_storage, &mut st);
        let ghost st0 = st@;
        let ghost mut rnd_used: u8 = 0;
        let x = instruction.operand_x();
        let y = instruction.operand_y();
        let nn = instruction.operand_nn();
        let nnn = instruction.operand_nnn();
        let r: Result<ControlFlow<()>, BackendError> = match instruction.operator_code() {
            0x0 if nnn == 0x0E0 => {
                let out: Result<ControlFlow<()>, BackendError> = {
                    self.display_buffer.clear();
                    Ok(ControlFlow::Continue(()))
                };
                out
            },
            0x0 if nnn == 0x0FD => {
                let out: Result<ControlFlow<()>, BackendError> = {
                    self.program_exited = true;
                    Ok(ControlFlow::Break(()))
                };
                out
            },
            0x0 if nnn == 0x0FE => {
                let out: Result<ControlFlow<()>, BackendError> = {
                    self.display_buffer.half_resolution = true;
                    Ok(ControlFlow::Continue(()))
                };
                out
            },
            0x0 if nnn == 0x0FF => {
                let out: Result<ControlFlow<()>, BackendError> = {
                    self.display_buffer.half_resolution = false;
                    Ok(ControlFlow::Continue(()))
                };
                out
            },
            0x0 if nnn / 16 == 0x0C => {
                let out: Result<ControlFlow<()>, BackendError> = {
                    let n = instruction.operand_n() as usize;
                    self.display_buffer.scroll_down(n);
                    Ok(ControlFlow::Continue(()))
                };
                out
            },
            0x0 if nnn == 0x0FB => {
                let out: Result<ControlFlow<()>, BackendError> = {
                    self.display_buffer.scroll_right(4);
                    Ok(ControlFlow::Continue(()))
                };
                out
            },
            0x0 if nnn == 0x0FC => {
                let out: Result<ControlFlow<()>, BackendError> = {
                    self.display_buffer.scroll_left(4);
                    Ok(ControlFlow::Continue(()))
                };
                out
            },
            0xD => {
                let out: Result<ControlFlow<()>, BackendError> = {
                    let n0 = instruction.operand_n() as usize;
                    let n = if !self.display_buffer.half_resolution && n0 == 0 {
                        32
                    } else {
                        n0
                    };
                    if self.inner.registers.address + n >= chip8::MEMORY_SIZE {
                        Err(BackendError {
                            instruction: Some((index, Some(instruction))),
                            kind: BackendErrorKind::MemoryOverflow,
                        })
                    } else {
                        let mut sprite: Vec<u8> = Vec::new();
                        let mut i: usize = 0;
                        let a = self.inner.registers.address;
                        while i < n
                            invariant
                                old(self).wf(),
                                *self == *old(self),
                                st@ == st0,
                                st0.len() == 8,
                                i <= n,
                                n <= 32,
                                a == self@.inner.address,
                                a + n < 4096,
                                sprite@.len() == i,
                                forall|k: int| 0 <= k < i ==> sprite@[k] == self@.inner.memory[a + k],
                            decreases n - i,
                        {
                            let b = self.inner.memory[a + i];
                            sprite.push(b);
                            i += 1;
                        }
                        proof {
                            assert(sprite@ =~= old(self)@.inner.memory.subrange(
                                old(self)@.inner.address,
                                old(self)@.inner.address + (if !old(self)@.display.half_resolution
                                    && n_of(w) == 0 {
                                    32int
                                } else {
                                    n_of(w)
                                }),
                            ));
                        }
                        let vx = self.inner.registers.general[x] as usize;
                        let vy = self.inner.registers.general[y] as usize;
                        let count = self.display_buffer.draw((vx, vy), &sprite);
                        let flag: u8 = if self.display_buffer.half_resolution {
                            if count > 0 {
                                1
                            } else {
                                0
                            }
                        } else {
                            count as u8
                        };
                        self.inner.registers.general[15] = flag;
                        Ok(ControlFlow::Continue(()))
                    }
                };
                out
            },
            0xF if nn == 0x29 => {
                let out: Result<ControlFlow<()>, BackendError> = {
                    let code = self.inner.registers.general[x];
                    if code < 16 {
                        self.inner.registers.address = code as usize * chip8::CHARACTER_SIZE;
                        Ok(ControlFlow::Continue(()))
                    } else if code & 0x10 == 0 || code & 0x0F >= 10 {
                        Err(BackendError {
                            instruction: Some((index, Some(instruction))),
                            kind: BackendErrorKind::UnrecognizedSprite,
                        })
                    } else {
                        self.inner.registers.address = chip8::FONT_SIZE + (code & 0x0F) as usize
                            * HIRES_CHARACTER_SIZE;
                        Ok(ControlFlow::Continue(()))
                    }
                };
                out
            },
            0xF if nn == 0x30 => {
                let out: Result<ControlFlow<()>, BackendError> = {
                    let code = self.inner.registers.general[x];
                    if code >= 10 {
                        Err(BackendError {
                            instruction: Some((index, Some(instruction))),
                            kind: BackendErrorKind::UnrecognizedSprite,
                        })
                    } else {
                        self.inner.registers.address = chip8::FONT_SIZE + code as usize
                            * HIRES_CHARACTER_SIZE;
                        Ok(ControlFlow::Continue(()))
                    }
                };
                out
            },
            0xF if nn == 0x75 => {
                let out: Result<ControlFlow<()>, BackendError> = {
                    let k = if x < PERSISTENT_STORAGE_SIZE - 1 {
                        x
                    } else {
                        PERSISTENT_STORAGE_SIZE - 1
                    };
                    let mut i: usize = 0;
                    while i < k + 1
                        invariant
                            old(self).wf(),
                            *self == *old(self),
                            i <= k + 1,
                            k < 8,
                            st@.len() == 8,
                            forall|j: int| 0 <= j < i ==> st@[j] == self@.inner.v[j],
                            forall|j: int| i <= j < 8 ==> st@[j] == st0[j],
                        decreases k + 1 - i,
                    {
                        let b = self.inner.registers.general[i];
                        st[i] = b;
                        i += 1;
                    }
                    proof {
                        assert(st@ =~= store_flags(
                            st0,
                            old(self)@.inner.v,
                            (if x_of(w) < 7 {
                                x_of(w)
                            } else {
                                7
                            }),
                        ));
                    }
                    Ok(ControlFlow::Continue(()))
                };
                out
            },
            0xF if nn == 0x85 => {
                let out: Result<ControlFlow<()>, BackendError> = {
                    let k = if x < PERSISTENT_STORAGE_SIZE - 1 {
                        x
                    } else {
                        PERSISTENT_STORAGE_SIZE - 1
                    };
                    let mut i: usize = 0;
                    while i < k + 1
                        invariant
                            old(self).wf(),
                            st@ == st0,
                            st0.len() == 8,
                            i <= k + 1,
                            k < 8,
                            self@ == (SuperModel {
                                inner: Chip8Model {
                                    v: self.inner.registers.general@,
                                    ..old(self)@.inner
                                },
                                ..old(self)@
                            }),
                            self.inner.registers.general@.len() == 16,
                            forall|j: int|
                                0 <= j < i ==> self.inner.registers.general@[j] == st0[j],
                            forall|j: int|
                                i <= j < 16 ==> self.inner.registers.general@[j] == old(
                                    self,
                                )@.inner.v[j],
                        decreases k + 1 - i,
                    {
                        let b = st[i];
                        self.inner.registers.general[i] = b;
                        i += 1;
                    }
                    proof {
                        assert(self.inner.registers.general@ =~= load_flags(
                            old(self)@.inner.v,
                            st0,
                            (if x_of(w) < 7 {
                                x_of(w)
                            } else {
                                7
                            }),
                        ));
                    }
                    Ok(ControlFlow::Continue(()))
                };
                out
            },
            _ => {
                let out: Result<ControlFlow<()>, BackendError> = {
                    let step = self.inner.execute(index, instruction, keyboard_state);
                    proof {
                        rnd_used = choose|rnd: u8|
                            super::model::step_post(
                                old(self)@.inner,
                                index as int,
                                w,
                                kp,
                                rnd,
                                self.inner@,
                                step,
                            );
                        assert(super::model::step_post(
                            old(self)@.inner,
                            index as int,
                            w,
                            kp,
                            rnd_used,
                            self.inner@,
                            step,
                        ));
                    }
                    step
                };
                out
            },
        };
        core::mem::swap(persistent_storage, &mut st);
        proof {
            assert(super_step_post(
                old(self)@,
                st0,
                index as int,
                w,
                kp,
                rnd_used,
                final(self)@,
                final(persistent_storage)@,
                r,
            ));
        }
        r
    }
}

/// Unfolding one fetch of the extended run when the program counter
/// has left memory: the run fails at once.
proof fn lemma_super_run_fetch_fail(
    s1: SuperModel,
    st_in: Seq<u8>,
    n: int,
    it: int,
    kp: KeypadState,
    old_rnds: Seq<u8>,
    s_head: SuperModel,
    st_head: Seq<u8>,
)
    requires
        0 <= it < n,
        old_rnds.len() == it,
        forall|fut: Seq<u8>|
            fut.len() == n - it ==> #[trigger] super_run(s1, st_in, n, kp, old_rnds + fut)
                == super_run(s_head, st_head, n - it, kp, fut),
        s_head.inner.index + 1 >= 4096,
    ensures
        super_run(s1, st_in, n, kp, old_rnds + Seq::new((n - it) as nat, |i: int| 0u8))
            == STickRes::Failed(
            s_head,
            st_head,
            BackendError {
                instruction: Some((s_head.inner.index as usize, None)),
                kind: BackendErrorKind::MemoryOverflow,
            },
        ),
        (old_rnds + Seq::new((n - it) as nat, |i: int| 0u8)).len() == n,
{
    let pad = Seq::new((n - it) as nat, |i: int| 0u8);
    assert(super_run(s1, st_in, n, kp, old_rnds + pad) == super_run(
        s_head,
        st_head,
        n - it,
        kp,
        pad,
    ));
}

/// Unfolding one fetch-execute of the extended run: what the rest of
/// the run is, for each way the step can go.
proof fn lemma_super_run_step(
    s1: SuperModel,
    st_in: Seq<u8>,
    n: int,
    it: int,
    kp: KeypadState,
    old_rnds: Seq<u8>,
    r1: u8,
    s_head: SuperModel,
    st_head: Seq<u8>,
    s_adv: SuperModel,
)
    requires
        0 <= it < n,
        old_rnds.len() == it,
        forall|fut: Seq<u8>|
            fut.len() == n - it ==> #[trigger] super_run(s1, st_in, n, kp, old_rnds + fut)
                == super_run(s_head, st_head, n - it, kp, fut),
        s_head.inner.index + 1 < 4096,
        s_adv == (SuperModel {
            inner: Chip8Model { index: s_head.inner.index + 2, ..s_head.inner },
            ..s_head
        }),
    ensures
        forall|fut2: Seq<u8>|
            fut2.len() == n - it - 1 ==> #[trigger] super_run(
                s1,
                st_in,
                n,
                kp,
                old_rnds.push(r1) + fut2,
            ) == (match super_step(
                s_adv,
                st_head,
                s_head.inner.index,
                word_at(s_head.inner.memory, s_head.inner.index),
                kp,
                r1,
            ) {
                SStepRes::Cont(m, st2) => super_run(m, st2, n - it - 1, kp, fut2),
                SStepRes::Brk(m, st2) => STickRes::Done(m, st2),
                SStepRes::Fail(k) => STickRes::Failed(
                    s_adv,
                    st_head,
                    BackendError {
                        instruction: Some(
                            (
                                s_head.inner.index as usize,
                                Some(
                                    Instruction(
                                        word_at(s_head.inner.memory, s_head.inner.index),
                                    ),
                                ),
                            ),
                        ),
                        kind: k,
                    },
                ),
            }),
{
    let pc = s_head.inner.index;
    let w = word_at(s_head.inner.memory, pc);
    assert forall|fut2: Seq<u8>| fut2.len() == n - it - 1 implies #[trigger] super_run(
        s1,
        st_in,
        n,
        kp,
        old_rnds.push(r1) + fut2,
    ) == (match super_step(s_adv, st_head, pc, w, kp, r1) {
        SStepRes::Cont(m, st2) => super_run(m, st2, n - it - 1, kp, fut2),
        SStepRes::Brk(m, st2) => STickRes::Done(m, st2),
        SStepRes::Fail(k) => STickRes::Failed(
            s_adv,
            st_head,
            BackendError { instruction: Some((pc as usize, Some(Instruction(w)))), kind: k },
        ),
    }) by {
        let fut = seq![r1] + fut2;
        assert(old_rnds.push(r1) + fut2 =~= old_rnds + fut);
        assert(fut.len() == n - it);
        assert(super_run(s1, st_in, n, kp, old_rnds + fut) == super_run(
            s_head,
            st_head,
            n - it,
            kp,
            fut,
        ));
        assert(fut[0] == r1);
        assert(fut.drop_first() =~= fut2);
    }
}

/// A tick of a loaded machine is the run from the state with both
/// timers decremented once.
proof fn lemma_super_tick_unfold(
    s0: SuperModel,
    st_in: Seq<u8>,
    n: int,
    kp: KeypadState,
    total: Seq<u8>,
    s1: SuperModel,
)
    requires
        s0.inner.loaded,
        s1 == (SuperModel {
            inner: Chip8Model {
                delay: if s0.inner.delay > 0 {
                    (s0.inner.delay - 1) as u8
                } else {
                    0
                },
                sound: if s0.inner.sound > 0 {
                    (s0.inner.sound - 1) as u8
                } else {
                    0
                },
                ..s0.inner
            },
            ..s0
        }),
    ensures
        super_tick(s0, st_in, n, kp, total) == super_run(s1, st_in, n, kp, total),
{
}

impl Backend {
    /// Run one frame of the extended core: decrement both timers once,
    /// then fetch and execute up to `n` instructions against the given
    /// eight bytes of persistent storage.
    #[verifier::rlimit(100)]
    pub fn tick(
        &mut self,
        n: u8,
        keyboard_state: &mut KeypadState,
        persistent_storage: &mut Vec<u8>,
    ) -> (r: Result<(), BackendError>)
        requires
            old(self).wf(),
            old(keyboard_state).wf(),
            old(persistent_storage)@.len() == PERSISTENT_STORAGE_SIZE,
        ensures
            final(self).wf(),
            *final(keyboard_state) == *old(keyboard_state),
            final(persistent_storage)@.len() == PERSISTENT_STORAGE_SIZE,
            exists|rnds: Seq<u8>|
                rnds.len() == n && match super_tick(
                    old(self)@,
                    old(persistent_storage)@,
                    n as int,
                    *old(keyboard_state),
                    rnds,
                ) {
                    STickRes::Done(m, st2) => r == Ok::<(), BackendError>(()) && final(self)@ == m
                        && final(persistent_storage)@ == st2,
                    STickRes::Failed(m, st2, e) => r == Err::<(), BackendError>(e)
                        && final(self)@ == m && final(persistent_storage)@ == st2,
                },
    {
        let ghost kp0 = *keyboard_state;
        let mut st: Vec<u8> = Vec::new();
        core::mem::swap(persistent_storage, &mut st);
        let ghost st_in = st@;
        if !self.inner.loaded {
            core::mem::swap(persistent_storage, &mut st);
            proof {
                let rnds = Seq::new(n as nat, |i: int| 0u8);
                assert(rnds.len() == n && match super_tick(old(self)@, st_in, n as int, kp0, rnds) {
                    STickRes::Done(m, st2) => false,
                    STickRes::Failed(m, st2, e) => e == BackendError {
                        instruction: None,
                        kind: BackendErrorKind::ProgramNotLoaded,
                    } && final(self)@ == m && final(persistent_storage)@ == st2,
                });
            }
            return Err(
                BackendError { instruction: None, kind: BackendErrorKind::ProgramNotLoaded },
            );
        }
        self.inner.timers.delay = if self.inner.timers.delay > 0 {
            self.inner.timers.delay - 1
        } else {
            0
        };
        self.inner.timers.sound = if self.inner.timers.sound > 0 {
            self.inner.timers.sound - 1
        } else {
            0
        };
        let ghost s1 = self@;
        let ghost mut rnds: Seq<u8> = Seq::empty();
        let mut it: u8 = 0;
        proof {
            assert forall|fut: Seq<u8>| fut.len() == n as int implies #[trigger] super_run(
                s1,
                st_in,
                n as int,
                kp0,
                rnds + fut,
            ) == super_run(self@, st@, n as int, kp0, fut) by {
                assert(rnds + fut =~= fut);
            }
        }
        while it < n
            invariant
                old(keyboard_state).wf(),
                *keyboard_state == *old(keyboard_state),
                kp0 == *old(keyboard_state),
                st_in == old(persistent_storage)@,
                self.wf(),
                st@.len() == PERSISTENT_STORAGE_SIZE,
                it <= n,
                rnds.len() == it,
                old(self)@.inner.loaded,
                s1 == (SuperModel {
                    inner: Chip8Model {
                        delay: if old(self)@.inner.delay > 0 {
                            (old(self)@.inner.delay - 1) as u8
                        } else {
                            0
                        },
                        sound: if old(self)@.inner.sound > 0 {
                            (old(self)@.inner.sound - 1) as u8
                        } else {
                            0
                        },
                        ..old(self)@.inner
                    },
                    ..old(self)@
                }),
                forall|fut: Seq<u8>|
                    fut.len() == n - it ==> #[trigger] super_run(s1, st_in, n as int, kp0, rnds + fut)
                        == super_run(self@, st@, (n - it) as int, kp0, fut),
            decreases n - it,
        {
            let ghost s_head = self@;
            let ghost st_head = st@;
            let ghost old_rnds = rnds;
            if self.inner.index + 1 >= chip8::MEMORY_SIZE {
                let e = BackendError {
                    instruction: Some((self.inner.index, None)),
                    kind: BackendErrorKind::MemoryOverflow,
                };
                proof {
                    let total = rnds + Seq::new((n - it) as nat, |i: int| 0u8);
                    lemma_super_run_fetch_fail(
                        s1,
                        st_in,
                        n as int,
                        it as int,
                        kp0,
                        rnds,
                        s_head,
                        st_head,
                    );
                    lemma_super_tick_unfold(old(self)@, st_in, n as int, kp0, total, s1);
                }
                core::mem::swap(persistent_storage, &mut st);
                proof {
                    assert(final(persistent_storage)@ == persistent_storage@);
                    assert(final(self)@ == self@);
                    assert(st_in == old(persistent_storage)@);
                }
                return Err(e);
            }
            let b0 = self.inner.memory[self.inner.index];
            let b1 = self.inner.memory[self.inner.index + 1];
            let instruction = Instruction::new([b0, b1]);
            let last_index = self.inner.index;
            self.inner.index += 2;
            let ghost s_adv = self@;
            let step = self.execute(last_index, instruction, keyboard_state, &mut st);
            let ghost r1 = choose|rnd: u8|
                super_step_post(
                    s_adv,
                    st_head,
                    last_index as int,
                    instruction.0,
                    kp0,
                    rnd,
                    self@,
                    st@,
                    step,
                );
            proof {
                assert(s_adv == (SuperModel {
                    inner: Chip8Model { index: last_index as int + 2, ..s_head.inner },
                    ..s_head
                }));
                assert(instruction.0 == word_at(s_head.inner.memory, last_index as int));
            }
            match step {
                Err(e) => {
                    proof {
                        lemma_super_run_step(
                            s1,
                            st_in,
                            n as int,
                            it as int,
                            kp0,
                            rnds,
                            r1,
                            s_head,
                            st_head,
                            s_adv,
                        );
                        let total = rnds.push(r1) + Seq::new((n - it - 1) as nat, |i: int| 0u8);
                        assert(total.len() == n);
                        assert(super_run(s1, st_in, n as int, kp0, total) == STickRes::Failed(
                            s_adv,
                            st_head,
                            e,
                        ));
                        lemma_super_tick_unfold(old(self)@, st_in, n as int, kp0, total, s1);
                    }
                    core::mem::swap(persistent_storage, &mut st);
                    proof {
                        assert(final(persistent_storage)@ == persistent_storage@);
                        assert(final(self)@ == self@);
                        assert(st_in == old(persistent_storage)@);
                    }
                    return Err(e);
                },
                Ok(ControlFlow::Break(_)) => {
                    proof {
                        lemma_super_run_step(
                            s1,
                            st_in,
                            n as int,
                            it as int,
                            kp0,
                            rnds,
                            r1,
                            s_head,
                            st_head,
                            s_adv,
                        );
                        let total = rnds.push(r1) + Seq::new((n - it - 1) as nat, |i: int| 0u8);
                        assert(total.len() == n);
                        assert(super_run(s1, st_in, n as int, kp0, total) == STickRes::Done(
                            self@,
                            st@,
                        ));
                        lemma_super_tick_unfold(old(self)@, st_in, n as int, kp0, total, s1);
                    }
                    core::mem::swap(persistent_storage, &mut st);
                    proof {
                        assert(final(persistent_storage)@ == persistent_storage@);
                        assert(final(self)@ == self@);
                        assert(st_in == old(persistent_storage)@);
                    }
                    return Ok(());
                },
                Ok(ControlFlow::Continue(_)) => {
                    proof {
                        lemma_super_run_step(
                            s1,
                            st_in,
                            n as int,
                            it as int,
                            kp0,
                            rnds,
                            r1,
                            s_head,
                            st_head,
                            s_adv,
                        );
                        rnds = rnds.push(r1);
                        assert(super_step(
                            s_adv,
                            st_head,
                            last_index as int,
                            instruction.0,
                            kp0,
                            r1,
                        ) == SStepRes::Cont(self@, st@));
                    }
                    it += 1;
                },
            }
        }
        proof {
            let empty = Seq::<u8>::empty();
            assert(rnds + empty =~= rnds);
            assert(super_run(s1, st_in, n as int, kp0, rnds + empty) == super_run(
                self@,
                st@,
                0,
                kp0,
                empty,
            ));
            lemma_super_tick_unfold(old(self)@, st_in, n as int, kp0, rnds, s1);
        }
        core::mem::swap(persistent_storage, &mut st);
        Ok(())
    }
}

impl Default for Backend {
    /// The extended core as shipped: sprite clipping on and every
    /// quirk in its extended-family setting.
    fn default() -> (r: Self)
        ensures
            r.wf(),
            r@.inner.options == (Options {
                copy_and_shift: false,
                increment_address: false,
                quirky_jump: true,
                reset_flag: false,
            }),
            !r@.inner.loaded,
            !r@.program_exited,
            r@.inner.index == chip8::MEMORY_PADDING,
            r@.inner.memory == Seq::new(4096nat, |i: int| 0u8),
            r@.inner.address == 0,
            r@.inner.v == Seq::new(16nat, |i: int| 0u8),
            r@.inner.stack == Seq::<u16>::empty(),
            r@.inner.delay == 0,
            r@.inner.sound == 0,
            r@.display == (DisplayModel {
                width: 128,
                height: 64,
                grid: interfaces::blank_grid(128, 64),
                dirty: false,
                half_resolution: true,
                clip_sprites: true,
                half_pixel_scrolling: false,
            }),
    {
        Self::new(
            Options {
                copy_and_shift: false,
                increment_address: false,
                quirky_jump: true,
                reset_flag: false,
            },
            DisplayOptions { clip_sprites: true, half_pixel_scrolling: false },
        )
    }
}

} // verus!

use vstd::prelude::*;

use super::interfaces;
use super::interfaces::DisplayOptions;
use super::interfaces::KeypadState;
use super::model::Chip8Model;
use super::model::chip8_wf;
use super::Options;
use super::Timers;

verus! {

pub const DISPLAY_BUFFER_HEIGHT: usize = 32;

pub const DISPLAY_BUFFER_WIDTH: usize = 64;

/// Bytes per glyph of the classic hexadecimal font.
pub const CHARACTER_SIZE: usize = 5;

/// Size of the classic font: sixteen glyphs of five bytes.
pub const FONT_SIZE: usize = 80;

/// Programs are loaded past the region reserved for the interpreter.
pub const MEMORY_PADDING: usize = 512;

pub const MEMORY_SIZE: usize = 4096;

pub const REGISTER_COUNT: usize = 16;

pub const STACK_SIZE: usize = 16;

/// The address register `address` and the sixteen general registers.
pub struct Registers {
    pub address: usize,
    pub general: Vec<u8>,
}

/// The classic interpreter core: 4 KiB of memory, sixteen registers,
/// a return stack, two timers and, optionally, a 64 by 32 display.
pub struct Backend {
    pub display_buffer: Option<
        interfaces::DisplayBuffer<DISPLAY_BUFFER_WIDTH, DISPLAY_BUFFER_HEIGHT>,
    >,
    pub index: usize,
    pub loaded: bool,
    pub memory: Vec<u8>,
    pub options: Options,
    pub registers: Registers,
    pub stack: Vec<u16>,
    pub timers: Timers,
}

impl View for Backend {
    type V = Chip8Model;

    open spec fn view(&self) -> Chip8Model {
        Chip8Model {
            display: match self.display_buffer {
                Some(d) => Some(d@),
                None => None,
            },
            index: self.index as int,
            loaded: self.loaded,
            memory: self.memory@,
            options: self.options,
            address: self.registers.address as int,
            v: self.registers.general@,
            stack: self.stack@,
            delay: self.timers.delay,
            sound: self.timers.sound,
        }
    }
}

impl Backend {
    pub open spec fn wf(self) -> bool {
        chip8_wf(self@)
    }

    /// A core with everything zeroed and nothing loaded; a display is
    /// attached when display options are handed in.
    pub fn new(options: Options, display_options: Option<DisplayOptions>) -> (r: Self)
        ensures
            r.wf(),
            r@.index == MEMORY_PADDING,
            !r@.loaded,
            r@.memory == Seq::new(4096nat, |i: int| 0u8),
            r@.options == options,
            r@.address == 0,
            r@.v == Seq::new(16nat, |i: int| 0u8),
            r@.stack == Seq::<u16>::empty(),
            r@.delay == 0,
            r@.sound == 0,
            match (display_options, r@.display) {
                (Some(o), Some(d)) => d == (interfaces::DisplayModel {
                    width: 64,
                    height: 32,
                    grid: interfaces::blank_grid(64, 32),
                    dirty: false,
                    half_resolution: false,
                    clip_sprites: o.clip_sprites,
                    half_pixel_scrolling: o.half_pixel_scrolling,
                }),
                (None, None) => true,
                _ => false,
            },
    {
        let mut memory: Vec<u8> = Vec::new();
        let mut i: usize = 0;
        while i < MEMORY_SIZE
            invariant
                i <= 4096,
                memory@ =~= Seq::new(i as nat, |k: int| 0u8),
            decreases 4096 - i,
        {
            memory.push(0);
            proof {
                assert(memory@ =~= Seq::new(i as nat + 1, |k: int| 0u8));
            }
            i += 1;
        }
        let mut general: Vec<u8> = Vec::new();
        let mut i: usize = 0;
        while i < REGISTER_COUNT
            invariant
                i <= 16,
                general@ =~= Seq::new(i as nat, |k: int| 0u8),
            decreases 16 - i,
        {
            general.push(0);
            proof {
                assert(general@ =~= Seq::new(i as nat + 1, |k: int| 0u8));
            }
            i += 1;
        }
        let display_buffer = match display_options {
            Some(o) => Some(interfaces::DisplayBuffer::new(o)),
            None => None,
        };
        Self {
            display_buffer,
            index: MEMORY_PADDING,
            loaded: false,
            memory,
            options,
            registers: Registers { address: 0, general },
            stack: Vec::new(),
            timers: Timers { delay: 0, sound: 0 },
        }
    }
}

} // verus!

use super::defaults;
use super::error::BackendError;
use super::error::BackendErrorKind;
use super::model::write_block;

verus! {

impl Backend {
    /// Copy a font (the built-in one when none is given) into low
    /// memory and the program to the load offset, and mark the core
    /// loaded. A program that cannot fit is rejected unwritten.
    pub fn load(&mut self, font: Option<&Vec<u8>>, program: &Vec<u8>) -> (r: Result<
        (),
        BackendError,
    >)
        requires
            old(self).wf(),
            match font {
                Some(f) => f@.len() >= FONT_SIZE,
                None => true,
            },
        ensures
            final(self).wf(),
            ({
                let fs = match font {
                    Some(f) => f@.take(FONT_SIZE as int),
                    None => defaults::backend_font().take(FONT_SIZE as int),
                };
                if program@.len() > MEMORY_SIZE - MEMORY_PADDING {
                    r == Err::<(), BackendError>(
                        BackendError { instruction: None, kind: BackendErrorKind::ProgramInvalid },
                    ) && *final(self) == *old(self)
                } else {
                    r == Ok::<(), BackendError>(()) && final(self)@ == (Chip8Model {
                        memory: write_block(
                            write_block(old(self)@.memory, 0, fs),
                            MEMORY_PADDING as int,
                            program@,
                        ),
                        loaded: true,
                        ..old(self)@
                    })
                }
            }),
    {
        if program.len() > MEMORY_SIZE - MEMORY_PADDING {
            return Err(BackendError { instruction: None, kind: BackendErrorKind::ProgramInvalid });
        }
        let ghost mem0 = self.memory@;
        let ghost fs = match font {
            Some(f) => f@.take(FONT_SIZE as int),
            None => defaults::backend_font().take(FONT_SIZE as int),
        };
        let built_in: Vec<u8>;
        let font_bytes: &Vec<u8> = match font {
            Some(f) => f,
            None => {
                built_in = defaults::default_font();
                &built_in
            },
        };
        let mut i: usize = 0;
        while i < FONT_SIZE
            invariant
                old(self).wf(),
                i <= FONT_SIZE,
                font_bytes@.len() >= FONT_SIZE,
                fs == font_bytes@.take(FONT_SIZE as int),
                self.memory@.len() == 4096,
                forall|k: int| 0 <= k < i ==> self.memory@[k] == fs[k],
                forall|k: int| i <= k < 4096 ==> self.memory@[k] == mem0[k],
                *self == (Backend { memory: self.memory, ..*old(self) }),
            decreases FONT_SIZE - i,
        {
            let b = font_bytes[i];
            self.memory[i] = b;
            i += 1;
        }
        let ghost mem1 = write_block(mem0, 0, fs);
        proof {
            assert(self.memory@ =~= mem1);
        }
        let mut i: usize = 0;
        let plen = program.len();
        while i < plen
            invariant
                old(self).wf(),
                i <= plen,
                plen == program@.len(),
                plen <= MEMORY_SIZE - MEMORY_PADDING,
                self.memory@.len() == 4096,
                forall|k: int| 0 <= k < i ==> self.memory@[MEMORY_PADDING + k] == program@[k],
                forall|k: int|
                    0 <= k < 4096 && !(MEMORY_PADDING <= k < MEMORY_PADDING + i)
                        ==> self.memory@[k] == mem1[k],
                *self == (Backend { memory: self.memory, ..*old(self) }),
            decreases plen - i,
        {
            let b = program[i];
            self.memory[MEMORY_PADDING + i] = b;
            i += 1;
        }
        self.loaded = true;
        proof {
            assert(final(self)@.memory =~= write_block(mem1, MEMORY_PADDING as int, program@));
        }
        Ok(())
    }

    /// Put the program counter back to the load offset and zero the
    /// registers, the stack and the timers; memory, the loaded program
    /// and the display stay as they are.
    pub fn reset(&mut self)
        requires
            old(self).wf(),
        ensures
            final(self).wf(),
            final(self)@ == (Chip8Model {
                index: MEMORY_PADDING as int,
                address: 0,
                v: Seq::new(16nat, |i: int| 0u8),
                stack: Seq::<u16>::empty(),
                delay: 0,
                sound: 0,
                ..old(self)@
            }),
    {
        self.index = MEMORY_PADDING;
        self.registers.address = 0;
        let mut general: Vec<u8> = Vec::new();
        let mut i: usize = 0;
        while i < REGISTER_COUNT
            invariant
                i <= 16,
                general@ =~= Seq::new(i as nat, |k: int| 0u8),
            decreases 16 - i,
        {
            general.push(0);
            proof {
                assert(general@ =~= Seq::new(i as nat + 1, |k: int| 0u8));
            }
            i += 1;
        }
        self.registers.general = general;
        self.stack = Vec::new();
        self.timers.delay = 0;
        self.timers.sound = 0;
        proof {
            assert(final(self)@.stack =~= Seq::<u16>::empty());
        }
    }
}

} // verus!

use core::ops::ControlFlow;

use super::instruction::Instruction;
use super::instruction::n_of;
use super::instruction::nn_of;
use super::instruction::op_of;
use super::instruction::x_of;
use super::model::StepRes;
use super::model::chip8_step;
use super::model::load_regs;
use super::model::step_post;
use super::model::store_regs;

verus! {

/// Relies on rand::random: one byte from the thread-local generator.
/// Nothing is assumed of its value.
#[verifier::external_body]
fn random_byte() -> u8 {
    rand::random::<u8>()
}

impl Backend {
    /// Execute one decoded instruction. `index` is the address the word
    /// was fetched from; the program counter has already moved past it.
    /// The machine moves exactly as the step model says; a drawing or
    /// key-waiting instruction breaks the frame.
    #[verifier::rlimit(80)]
    pub(crate) fn execute(
        &mut self,
        index: usize,
        instruction: Instruction,
        keyboard_state: &KeypadState,
    ) -> (r: Result<ControlFlow<()>, BackendError>)
        requires
            old(self).wf(),
            old(self)@.index <= 4096,
            index + 2 == old(self)@.index,
            keyboard_state.wf(),
        ensures
            final(self).wf(),
            old(self)@.display is None ==> final(self)@.display is None,
            exists|rnd: u8|
                step_post(
                    old(self)@,
                    index as int,
                    instruction.0,
                    *keyboard_state,
                    rnd,
                    final(self)@,
                    r,
                ),
    {
        let ghost w = instruction.0;
        let ghost kp = *keyboard_state;
        let ghost mut rnd_used: u8 = 0;
        let x = instruction.operand_x();
        let y = instruction.operand_y();
        let r: Result<ControlFlow<()>, BackendError> = match instruction.operator_code() {
            0x0 => {
                match instruction.operand_nnn() {
                    0x0E0 => {
                        match &mut self.display_buffer {
                            None => Err(BackendError {
                                instruction: Some((index, Some(instruction))),
                                kind: BackendErrorKind::DisplayNotConnected,
                            }),
                            Some(db) => {
                                db.clear();
                                Ok(ControlFlow::Continue(()))
                            },
                        }
                    },
                    0x0EE => {
                        match self.stack.pop() {
                            None => Err(BackendError {
                                instruction: Some((index, Some(instruction))),
                                kind: BackendErrorKind::StackUnderflow,
                            }),
                            Some(address) => {
                                self.index = address as usize;
                                Ok(ControlFlow::Continue(()))
                            },
                        }
                    },
                    _ => Ok(ControlFlow::Continue(())),
                }
            },
            0x1 => {
                self.index = instruction.operand_nnn();
                Ok(ControlFlow::Continue(()))
            },
            0x2 => {
                if self.stack.len() == STACK_SIZE {
                    Err(BackendError {
                        instruction: Some((index, Some(instruction))),
                        kind: BackendErrorKind::StackOverflow,
                    })
                } else {
                    self.stack.push(self.index as u16);
                    self.index = instruction.operand_nnn();
                    Ok(ControlFlow::Continue(()))
                }
            },
            0x3 => {
                if self.registers.general[x] == instruction.operand_nn() {
                    self.index += 2;
                }
                Ok(ControlFlow::Continue(()))
            },
            0x4 => {
                if self.registers.general[x] != instruction.operand_nn() {
                    self.index += 2;
                }
                Ok(ControlFlow::Continue(()))
            },
            0x5 => {
                if self.registers.general[x] == self.registers.general[y] {
                    self.index += 2;
                }
                Ok(ControlFlow::Continue(()))
            },
            0x9 => {
                if self.registers.general[x] != self.registers.general[y] {
                    self.index += 2;
                }
                Ok(ControlFlow::Continue(()))
            },
            0x6 => {
                self.registers.general[x] = instruction.operand_nn();
                Ok(ControlFlow::Continue(()))
            },
            0x7 => {
                let sum = self.registers.general[x] as u16 + instruction.operand_nn() as u16;
                self.registers.general[x] = (sum % 256) as u8;
                Ok(ControlFlow::Continue(()))
            },
            0x8 => {
                match instruction.operand_n() {
                    0x0 => {
                        self.registers.general[x] = self.registers.general[y];
                        Ok(ControlFlow::Continue(()))
                    },
                    0x1 => {
                        self.registers.general[x] = self.registers.general[x]
                            | self.registers.general[y];
                        if self.options.reset_flag {
                            self.registers.general[15] = 0;
                        }
                        Ok(ControlFlow::Continue(()))
                    },
                    0x2 => {
                        self.registers.general[x] = self.registers.general[x]
                            & self.registers.general[y];
                        if self.options.reset_flag {
                            self.registers.general[15] = 0;
                        }
                        Ok(ControlFlow::Continue(()))
                    },
                    0x3 => {
                        self.registers.general[x] = self.registers.general[x]
                            ^ self.registers.general[y];
                        if self.options.reset_flag {
                            self.registers.general[15] = 0;
                        }
                        Ok(ControlFlow::Continue(()))
                    },
                    0x4 => {
                        let sum = self.registers.general[x] as u16 + self.registers.general[y]
                            as u16;
                        self.registers.general[x] = (sum % 256) as u8;
                        self.registers.general[15] = if sum > 255 {
                            1
                        } else {
                            0
                        };
                        Ok(ControlFlow::Continue(()))
                    },
                    0x5 => {
                        let vx = self.registers.general[x];
                        let vy = self.registers.general[y];
                        let result = if vx >= vy {
                            vx - vy
                        } else {
                            ((vx as u16 + 256) - vy as u16) as u8
                        };
                        self.registers.general[x] = result;
                        self.registers.general[15] = if vx >= vy {
                            1
                        } else {
                            0
                        };
                        Ok(ControlFlow::Continue(()))
                    },
                    0x7 => {
                        let vx = self.registers.general[x];
                        let vy = self.registers.general[y];
                        let result = if vy >= vx {
                            vy - vx
                        } else {
                            ((vy as u16 + 256) - vx as u16) as u8
                        };
                        self.registers.general[x] = result;
                        self.registers.general[15] = if vy >= vx {
                            1
                        } else {
                            0
                        };
                        Ok(ControlFlow::Continue(()))
                    },
                    0x6 => {
                        let src = if self.options.copy_and_shift {
                            self.registers.general[y]
                        } else {
                            self.registers.general[x]
                        };
                        self.registers.general[x] = src / 2;
                        self.registers.general[15] = src % 2;
                        Ok(ControlFlow::Continue(()))
                    },
                    0xE => {
                        let src = if self.options.copy_and_shift {
                            self.registers.general[y]
                        } else {
                            self.registers.general[x]
                        };
                        let doubled = src as u16 + src as u16;
                        self.registers.general[x] = (doubled % 256) as u8;
                        self.registers.general[15] = src / 128;
                        Ok(ControlFlow::Continue(()))
                    },
                    _ => Err(BackendError {
                        instruction: Some((index, Some(instruction))),
                        kind: BackendErrorKind::UnrecognizedInstruction,
                    }),
                }
            },
            0xA => {
                self.registers.address = instruction.operand_nnn();
                Ok(ControlFlow::Continue(()))
            },
            0xB => {
                let base = if self.options.quirky_jump {
                    self.registers.general[x]
                } else {
                    self.registers.general[0]
                };
                self.index = base as usize + instruction.operand_nnn();
                Ok(ControlFlow::Continue(()))
            },
            0xC => {
                let drawn = random_byte();
                proof {
                    rnd_used = drawn;
                }
                self.registers.general[x] = drawn & instruction.operand_nn();
                Ok(ControlFlow::Continue(()))
            },
            0xD => {
                let n = instruction.operand_n() as usize;
                if self.registers.address + n >= MEMORY_SIZE {
                    Err(BackendError {
                        instruction: Some((index, Some(instruction))),
                        kind: BackendErrorKind::MemoryOverflow,
                    })
                } else if self.display_buffer.is_none() {
                    Err(BackendError {
                        instruction: Some((index, Some(instruction))),
                        kind: BackendErrorKind::DisplayNotConnected,
                    })
                } else {
                    let mut sprite: Vec<u8> = Vec::new();
                    let mut i: usize = 0;
                    let a = self.registers.address;
                    while i < n
                        invariant
                            old(self).wf(),
                            *self == *old(self),
                            i <= n,
                            n < 16,
                            a == self@.address,
                            a + n < 4096,
                            sprite@.len() == i,
                            forall|k: int| 0 <= k < i ==> sprite@[k] == self@.memory[a + k],
                        decreases n - i,
                    {
                        let b = self.memory[a + i];
                        sprite.push(b);
                        i += 1;
                    }
                    proof {
                        assert(sprite@ =~= old(self)@.memory.subrange(
                            old(self)@.address,
                            old(self)@.address + n_of(w),
                        ));
                    }
                    let vx = self.registers.general[x] as usize;
                    let vy = self.registers.general[y] as usize;
                    let count: usize;
                    match &mut self.display_buffer {
                        Some(db) => {
                            count = db.draw((vx, vy), &sprite);
                        },
                        None => {
                            count = 0;
                            proof {
                                assert(false);
                            }
                        },
                    }
                    self.registers.general[15] = if count > 0 {
                        1
                    } else {
                        0
                    };
                    Ok(ControlFlow::Break(()))
                }
            },
            0xE => {
                match instruction.operand_nn() {
                    0x9E => {
                        let key = self.registers.general[x] as usize;
                        if key >= super::KEY_COUNT {
                            Err(BackendError {
                                instruction: Some((index, Some(instruction))),
                                kind: BackendErrorKind::UnrecognizedKey,
                            })
                        } else {
                            if keyboard_state.pressed(key) {
                                self.index += 2;
                            }
                            Ok(ControlFlow::Continue(()))
                        }
                    },
                    0xA1 => {
                        let key = self.registers.general[x] as usize;
                        if key >= super::KEY_COUNT {
                            Err(BackendError {
                                instruction: Some((index, Some(instruction))),
                                kind: BackendErrorKind::UnrecognizedKey,
                            })
                        } else {
                            if !keyboard_state.pressed(key) {
                                self.index += 2;
                            }
                            Ok(ControlFlow::Continue(()))
                        }
                    },
                    _ => Err(BackendError {
                        instruction: Some((index, Some(instruction))),
                        kind: BackendErrorKind::UnrecognizedInstruction,
                    }),
                }
            },
            0xF => {
                match instruction.operand_nn() {
                    0x07 => {
                        self.registers.general[x] = self.timers.delay;
                        Ok(ControlFlow::Continue(()))
                    },
                    0x0A => {
                        match keyboard_state.pressed_key() {
                            Some(key) => {
                                self.registers.general[x] = key as u8;
                            },
                            None => {
                                self.index = index;
                            },
                        }
                        Ok(ControlFlow::Break(()))
                    },
                    0x15 => {
                        self.timers.delay = self.registers.general[x];
                        Ok(ControlFlow::Continue(()))
                    },
                    0x18 => {
                        self.timers.sound = self.registers.general[x];
                        Ok(ControlFlow::Continue(()))
                    },
                    0x1E => {
                        self.registers.address = (self.registers.address
                            + self.registers.general[x] as usize) % 4096;
                        Ok(ControlFlow::Continue(()))
                    },
                    0x29 => {
                        let character_code = self.registers.general[x] as usize;
                        if character_code >= super::KEY_COUNT {
                            Err(BackendError {
                                instruction: Some((index, Some(instruction))),
                                kind: BackendErrorKind::UnrecognizedSprite,
                            })
                        } else {
                            self.registers.address = character_code * CHARACTER_SIZE;
                            Ok(ControlFlow::Continue(()))
                        }
                    },
                    0x33 => {
                        if self.registers.address + 2 >= MEMORY_SIZE {
                            Err(BackendError {
                                instruction: Some((index, Some(instruction))),
                                kind: BackendErrorKind::MemoryOverflow,
                            })
                        } else {
                            let number = self.registers.general[x];
                            let a = self.registers.address;
                            self.memory[a] = number / 100;
                            self.memory[a + 1] = (number / 10) % 10;
                            self.memory[a + 2] = number % 10;
                            Ok(ControlFlow::Continue(()))
                        }
                    },
                    0x55 => {
                        if self.registers.address + x >= MEMORY_SIZE {
                            Err(BackendError {
                                instruction: Some((index, Some(instruction))),
                                kind: BackendErrorKind::MemoryOverflow,
                            })
                        } else {
                            let a = self.registers.address;
                            let mut i: usize = 0;
                            while i < x + 1
                                invariant
                                    old(self).wf(),
                                    self.wf(),
                                    i <= x + 1,
                                    x == x_of(w),
                                    a + x < 4096,
                                    a == self@.address,
                                    *self == (Backend { memory: self.memory, ..*old(self) }),
                                    self.memory@.len() == 4096,
                                    forall|k: int|
                                        a <= k < a + i ==> self.memory@[k] == old(
                                            self,
                                        )@.v[k - a],
                                    forall|k: int|
                                        0 <= k < 4096 && !(a <= k < a + i)
                                            ==> self.memory@[k] == old(self)@.memory[k],
                                decreases x + 1 - i,
                            {
                                let b = self.registers.general[i];
                                self.memory[a + i] = b;
                                i += 1;
                            }
                            proof {
                                assert(self.memory@ =~= store_regs(
                                    old(self)@.memory,
                                    a as int,
                                    old(self)@.v,
                                    x_of(w),
                                ));
                            }
                            if self.options.increment_address {
                                self.registers.address += x + 1;
                            }
                            Ok(ControlFlow::Continue(()))
                        }
                    },
                    0x65 => {
                        if self.registers.address + x >= MEMORY_SIZE {
                            Err(BackendError {
                                instruction: Some((index, Some(instruction))),
                                kind: BackendErrorKind::MemoryOverflow,
                            })
                        } else {
                            let a = self.registers.address;
                            let mut i: usize = 0;
                            while i < x + 1
                                invariant
                                    old(self).wf(),
                                    self.wf(),
                                    i <= x + 1,
                                    x == x_of(w),
                                    x < 16,
                                    a + x < 4096,
                                    a == self@.address,
                                    *self == (Backend {
                                        registers: Registers {
                                            address: self.registers.address,
                                            general: self.registers.general,
                                        },
                                        ..*old(self)
                                    }),
                                    self.registers.address == old(self).registers.address,
                                    self.registers.general@.len() == 16,
                                    forall|k: int|
                                        0 <= k < i ==> self.registers.general@[k] == old(
                                            self,
                                        )@.memory[a + k],
                                    forall|k: int|
                                        i <= k < 16 ==> self.registers.general@[k] == old(
                                            self,
                                        )@.v[k],
                                decreases x + 1 - i,
                            {
                                let b = self.memory[a + i];
                                self.registers.general[i] = b;
                                i += 1;
                            }
                            proof {
                                assert(self.registers.general@ =~= load_regs(
                                    old(self)@.v,
                                    old(self)@.memory,
                                    a as int,
                                    x_of(w),
                                ));
                            }
                            if self.options.increment_address {
                                self.registers.address += x + 1;
                            }
                            Ok(ControlFlow::Continue(()))
                        }
                    },
                    _ => Err(BackendError {
                        instruction: Some((index, Some(instruction))),
                        kind: BackendErrorKind::UnrecognizedInstruction,
                    }),
                }
            },
            _ => Err(BackendError {
                instruction: Some((index, Some(instruction))),
                kind: BackendErrorKind::UnrecognizedInstruction,
            }),
        };
        proof {
            reveal(chip8_step);
            assert(step_post(old(self)@, index as int, w, kp, rnd_used, final(self)@, r));
        }
        r
    }
}

} // verus!

use super::model::TickRes;
use super::model::chip8_run;
use super::model::chip8_tick;
use super::model::word_at;

verus! {

impl Backend {
    /// Run one frame: decrement both timers once, then fetch and
    /// execute up to `n` instructions, stopping early when one breaks
    /// the frame and aborting when one fails. The machine moves exactly
    /// as the tick model says for the bytes its random source produced.
    pub fn tick(&mut self, n: u8, keyboard_state: &mut KeypadState) -> (r: Result<
        (),
        BackendError,
    >)
        requires
            old(self).wf(),
            old(keyboard_state).wf(),
        ensures
            final(self).wf(),
            *final(keyboard_state) == *old(keyboard_state),
            exists|rnds: Seq<u8>|
                rnds.len() == n && match chip8_tick(
                    old(self)@,
                    n as int,
                    *old(keyboard_state),
                    rnds,
                ) {
                    TickRes::Done(m) => r == Ok::<(), BackendError>(()) && final(self)@ == m,
                    TickRes::Failed(m, e) => r == Err::<(), BackendError>(e) && final(self)@ == m,
                },
    {
        let ghost kp0 = *keyboard_state;
        if !self.loaded {
            proof {
                let rnds = Seq::new(n as nat, |i: int| 0u8);
                assert(rnds.len() == n && match chip8_tick(old(self)@, n as int, kp0, rnds) {
                    TickRes::Done(m) => false,
                    TickRes::Failed(m, e) => e == BackendError {
                        instruction: None,
                        kind: BackendErrorKind::ProgramNotLoaded,
                    } && final(self)@ == m,
                });
            }
            return Err(
                BackendError { instruction: None, kind: BackendErrorKind::ProgramNotLoaded },
            );
        }
        self.timers.delay = if self.timers.delay > 0 {
            self.timers.delay - 1
        } else {
            0
        };
        self.timers.sound = if self.timers.sound > 0 {
            self.timers.sound - 1
        } else {
            0
        };
        let ghost s1 = self@;
        let ghost mut rnds: Seq<u8> = Seq::empty();
        let mut it: u8 = 0;
        proof {
            assert forall|fut: Seq<u8>| fut.len() == n as int implies #[trigger] chip8_run(
                s1,
                n as int,
                kp0,
                rnds + fut,
            ) == chip8_run(self@, n as int, kp0, fut) by {
                assert(rnds + fut =~= fut);
            }
        }
        while it < n
            invariant
                old(keyboard_state).wf(),
                *keyboard_state == *old(keyboard_state),
                kp0 == *old(keyboard_state),
                self.wf(),
                it <= n,
                rnds.len() == it,
                old(self)@.loaded,
                s1 == (Chip8Model {
                    delay: if old(self)@.delay > 0 {
                        (old(self)@.delay - 1) as u8
                    } else {
                        0
                    },
                    sound: if old(self)@.sound > 0 {
                        (old(self)@.sound - 1) as u8
                    } else {
                        0
                    },
                    ..old(self)@
                }),
                forall|fut: Seq<u8>|
                    fut.len() == n - it ==> #[trigger] chip8_run(s1, n as int, kp0, rnds + fut)
                        == chip8_run(self@, (n - it) as int, kp0, fut),
            decreases n - it,
        {
            let ghost s_head = self@;
            let ghost old_rnds = rnds;
            if self.index + 1 >= MEMORY_SIZE {
                let e = BackendError {
                    instruction: Some((self.index, None)),
                    kind: BackendErrorKind::MemoryOverflow,
                };
                proof {
                    let pad = Seq::new((n - it) as nat, |i: int| 0u8);
                    let total = rnds + pad;
                    assert(total.len() == n);
                    assert(chip8_run(s1, n as int, kp0, rnds + pad) == chip8_run(
                        s_head,
                        (n - it) as int,
                        kp0,
                        pad,
                    ));
                    assert(chip8_run(s_head, (n - it) as int, kp0, pad) == TickRes::Failed(
                        s_head,
                        e,
                    ));
                    assert(chip8_tick(old(self)@, n as int, kp0, total) == chip8_run(
                        s1,
                        n as int,
                        kp0,
                        total,
                    ));
                }
                return Err(e);
            }
            let b0 = self.memory[self.index];
            let b1 = self.memory[self.index + 1];
            let instruction = Instruction::new([b0, b1]);
            let last_index = self.index;
            self.index += 2;
            let ghost s_adv = self@;
            let step = self.execute(last_index, instruction, keyboard_state);
            let ghost r1 = choose|rnd: u8|
                step_post(s_adv, last_index as int, instruction.0, kp0, rnd, self@, step);
            proof {
                assert(s_adv == (Chip8Model { index: last_index as int + 2, ..s_head }));
                assert(instruction.0 == word_at(s_head.memory, last_index as int));
            }
            match step {
                Err(e) => {
                    proof {
                        let fut = seq![r1] + Seq::new((n - it - 1) as nat, |i: int| 0u8);
                        let total = rnds + fut;
                        assert(total.len() == n);
                        assert(fut[0] == r1);
                        assert(chip8_run(s1, n as int, kp0, rnds + fut) == chip8_run(
                            s_head,
                            (n - it) as int,
                            kp0,
                            fut,
                        ));
                        assert(chip8_run(s_head, (n - it) as int, kp0, fut) == TickRes::Failed(
                            s_adv,
                            e,
                        ));
                        assert(chip8_tick(old(self)@, n as int, kp0, total) == chip8_run(
                            s1,
                            n as int,
                            kp0,
                            total,
                        ));
                    }
                    return Err(e);
                },
                Ok(ControlFlow::Break(_)) => {
                    proof {
                        let fut = seq![r1] + Seq::new((n - it - 1) as nat, |i: int| 0u8);
                        let total = rnds + fut;
                        assert(total.len() == n);
                        assert(fut[0] == r1);
                        assert(fut.drop_first() =~= Seq::new((n - it - 1) as nat, |i: int| 0u8));
                        assert(chip8_run(s1, n as int, kp0, rnds + fut) == chip8_run(
                            s_head,
                            (n - it) as int,
                            kp0,
                            fut,
                        ));
                        assert(chip8_run(s_head, (n - it) as int, kp0, fut) == TickRes::Done(
                            self@,
                        ));
                        assert(chip8_tick(old(self)@, n as int, kp0, total) == chip8_run(
                            s1,
                            n as int,
                            kp0,
                            total,
                        ));
                    }
                    return Ok(());
                },
                Ok(ControlFlow::Continue(_)) => {
                    proof {
                        rnds = rnds.push(r1);
                        assert forall|fut2: Seq<u8>| fut2.len() == n - it - 1 implies #[trigger] chip8_run(
                            s1,
                            n as int,
                            kp0,
                            rnds + fut2,
                        ) == chip8_run(self@, (n - it - 1) as int, kp0, fut2) by {
                            let fut = seq![r1] + fut2;
                            assert(rnds + fut2 =~= old_rnds + fut);
                            assert(fut.len() == n - it);
                            assert(chip8_run(s1, n as int, kp0, old_rnds + fut) == chip8_run(
                                s_head,
                                (n - it) as int,
                                kp0,
                                fut,
                            ));
                            assert(fut[0] == r1);
                            assert(fut.drop_first() =~= fut2);
                            assert(chip8_step(s_adv, last_index as int, instruction.0, kp0, r1)
                                == StepRes::Cont(self@));
                            assert(chip8_run(s_head, (n - it) as int, kp0, fut) == chip8_run(
                                self@,
                                (n - it - 1) as int,
                                kp0,
                                fut2,
                            ));
                        }
                    }
                    it += 1;
                },
            }
        }
        proof {
            let empty = Seq::<u8>::empty();
            assert(rnds + empty =~= rnds);
            assert(chip8_run(s1, n as int, kp0, rnds + empty) == chip8_run(self@, 0, kp0, empty));
            assert(chip8_run(self@, 0, kp0, empty) == TickRes::Done(self@));
            assert(chip8_tick(old(self)@, n as int, kp0, rnds) == chip8_run(
                s1,
                n as int,
                kp0,
                rnds,
            ));
        }
        Ok(())
    }
}

} // verus!

verus! {

impl Default for Backend {
    /// The classic core as shipped: a display with sprite clipping, and
    /// the quirk set of the original interpreter family.
    fn default() -> (r: Self)
        ensures
            r.wf(),
            r@.options == (Options {
                copy_and_shift: true,
                increment_address: true,
                quirky_jump: false,
                reset_flag: true,
            }),
            r@.index == MEMORY_PADDING,
            !r@.loaded,
            r@.memory == Seq::new(4096nat, |i: int| 0u8),
            r@.address == 0,
            r@.v == Seq::new(16nat, |i: int| 0u8),
            r@.stack == Seq::<u16>::empty(),
            r@.delay == 0,
            r@.sound == 0,
            r@.display == Some(
                interfaces::DisplayModel {
                    width: 64,
                    height: 32,
                    grid: interfaces::blank_grid(64, 32),
                    dirty: false,
                    half_resolution: false,
                    clip_sprites: true,
                    half_pixel_scrolling: false,
                },
            ),
    {
        Self::new(
            Options {
                copy_and_shift: true,
                increment_address: true,
                quirky_jump: false,
                reset_flag: true,
            },
            Some(DisplayOptions { clip_sprites: true, half_pixel_scrolling: false }),
        )
    }
}

} // verus!

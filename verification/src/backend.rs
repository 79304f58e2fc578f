pub mod chip8;
pub mod defaults;
pub mod error;
pub mod instruction;
pub mod interfaces;
pub mod laws;
pub mod model;
pub mod sprite;
pub mod superchip;

pub use error::BackendError;
pub use error::BackendErrorKind;
pub use instruction::Instruction;

pub use chip8::FONT_SIZE as MIN_FONT_SIZE;
pub use superchip::FONT_SIZE as MAX_FONT_SIZE;
pub use superchip::PERSISTENT_STORAGE_SIZE;

use vstd::prelude::*;

verus! {

/// Number of keys on the hexadecimal keypad (digits 0 through F).
pub const KEY_COUNT: usize = 16;

/// The behaviour quirks that distinguish CHIP-8 interpreter families.
#[derive(Clone, Copy, Debug, PartialEq, Eq, Structural)]
pub struct Options {
    /// The shift opcodes copy the second operand register into the
    /// first before shifting.
    pub copy_and_shift: bool,
    /// The register save and load opcodes advance the address register
    /// past the copied range.
    pub increment_address: bool,
    /// The indexed jump adds the register picked by the top operand
    /// nibble instead of register zero.
    pub quirky_jump: bool,
    /// The bitwise opcodes clear the flag register afterwards.
    pub reset_flag: bool,
}

/// The two 60 Hz timers; both count down once per tick and stop at zero.
#[derive(Clone, Copy, Debug, PartialEq, Eq, Structural)]
pub struct Timers {
    pub delay: u8,
    pub sound: u8,
}

} // verus!

use vstd::prelude::*;

use interfaces::DisplayModel;
use interfaces::DisplayOptions;
use interfaces::KeypadState;
use model::Chip8Model;
use model::TickRes;
use model::chip8_tick;
use superchip::STickRes;
use superchip::SuperModel;
use superchip::super_tick;

verus! {

/// A backend: the classic core or the extended one, behind one API.
pub enum Backend {
    Chip8(chip8::Backend),
    SuperChip(superchip::Backend),
}

impl Backend {
    pub open spec fn wf(self) -> bool {
        match self {
            Backend::Chip8(b) => b.wf(),
            Backend::SuperChip(b) => b.wf(),
        }
    }

    /// The display model of the backend, when one is attached.
    pub open spec fn display(self) -> Option<DisplayModel> {
        match self {
            Backend::Chip8(b) => b@.display,
            Backend::SuperChip(b) => Some(b@.display),
        }
    }

    /// The pixel grid flattened row-major for the host to render;
    /// reading it acknowledges the dirty flag. The classic core fails
    /// when no display is attached.
    pub fn get_display_buffer(&mut self) -> (r: Result<Vec<bool>, BackendError>)
        requires
            old(self).wf(),
        ensures
            final(self).wf(),
            match old(self).display() {
                None => r == Err::<Vec<bool>, BackendError>(
                    BackendError {
                        kind: BackendErrorKind::DisplayNotConnected,
                        instruction: None,
                    },
                ) && *final(self) == *old(self),
                Some(d) => {
                    &&& r is Ok
                    &&& r->Ok_0@.len() == d.height * d.width
                    &&& forall|i: int, j: int|
                        0 <= i < d.height && 0 <= j < d.width ==> r->Ok_0@[i * d.width + j]
                            == d.grid[i][j]
                    &&& final(self).display() == Some(DisplayModel { dirty: false, ..d })
                },
            },
    {
        match self {
            Backend::Chip8(backend) => {
                match &mut backend.display_buffer {
                    None => Err(
                        BackendError {
                            kind: BackendErrorKind::DisplayNotConnected,
                            instruction: None,
                        },
                    ),
                    Some(db) => Ok(db.get_flattened()),
                }
            },
            Backend::SuperChip(backend) => Ok(backend.display_buffer.get_flattened()),
        }
    }

    /// The width and height of the display.
    pub fn display_buffer_size(&self) -> (r: [usize; 2])
        ensures
            match self {
                Backend::Chip8(_) => r[0] == 64 && r[1] == 32,
                Backend::SuperChip(_) => r[0] == 128 && r[1] == 64,
            },
    {
        match self {
            Backend::Chip8(_) => [chip8::DISPLAY_BUFFER_WIDTH, chip8::DISPLAY_BUFFER_HEIGHT],
            Backend::SuperChip(_) => [
                superchip::DISPLAY_BUFFER_WIDTH,
                superchip::DISPLAY_BUFFER_HEIGHT,
            ],
        }
    }

    /// The display options, for the host to reconfigure.
    pub fn get_display_options_mut(&mut self) -> (r: &mut DisplayOptions)
        requires
            old(self).wf(),
            old(self).display() is Some,
        ensures
            *r == (DisplayOptions {
                clip_sprites: old(self).display()->Some_0.clip_sprites,
                half_pixel_scrolling: old(self).display()->Some_0.half_pixel_scrolling,
            }),
            old(self).wf() ==> final(self).wf(),
            final(self).display() == Some(
                DisplayModel {
                    clip_sprites: final(r).clip_sprites,
                    half_pixel_scrolling: final(r).half_pixel_scrolling,
                    ..old(self).display()->Some_0
                },
            ),
            match (*old(self), *final(self)) {
                (Backend::Chip8(b0), Backend::Chip8(b1)) => b1@ == (Chip8Model {
                    display: final(self).display(),
                    ..b0@
                }),
                (Backend::SuperChip(b0), Backend::SuperChip(b1)) => b1@ == (SuperModel {
                    display: final(self).display()->Some_0,
                    ..b0@
                }),
                _ => false,
            },
    {
        match self {
            Backend::Chip8(backend) => {
                let db = backend.display_buffer.as_mut().unwrap();
                &mut db.options
            },
            Backend::SuperChip(backend) => &mut backend.display_buffer.options,
        }
    }

    /// Whether the display changed since it was last read.
    pub fn is_display_buffer_dirty(&self) -> (r: bool)
        requires
            self.display() is Some,
        ensures
            r == self.display()->Some_0.dirty,
    {
        match self {
            Backend::Chip8(backend) => {
                match &backend.display_buffer {
                    Some(db) => db.is_dirty(),
                    None => false,
                }
            },
            Backend::SuperChip(backend) => backend.display_buffer.is_dirty(),
        }
    }

    /// Load a font and a program into whichever core this is.
    pub fn load(&mut self, font: Option<&Vec<u8>>, program: &Vec<u8>) -> (r: Result<
        (),
        BackendError,
    >)
        requires
            old(self).wf(),
            match font {
                Some(f) => f@.len() >= chip8::FONT_SIZE,
                None => true,
            },
        ensures
            final(self).wf(),
            program@.len() > chip8::MEMORY_SIZE - chip8::MEMORY_PADDING <==> r == Err::<
                (),
                BackendError,
            >(BackendError { instruction: None, kind: BackendErrorKind::ProgramInvalid }),
            r is Err ==> *final(self) == *old(self),
            r is Ok ==> ({
                let fs = match font {
                    Some(f) => f@.take(chip8::FONT_SIZE as int),
                    None => defaults::backend_font().take(chip8::FONT_SIZE as int),
                };
                match (*old(self), *final(self)) {
                    (Backend::Chip8(b0), Backend::Chip8(b1)) => b1@ == (Chip8Model {
                        memory: model::write_block(
                            model::write_block(b0@.memory, 0, fs),
                            chip8::MEMORY_PADDING as int,
                            program@,
                        ),
                        loaded: true,
                        ..b0@
                    }),
                    (Backend::SuperChip(b0), Backend::SuperChip(b1)) => {
                        let hs = match font {
                            Some(f) => if f@.len() >= superchip::FONT_SIZE as int {
                                f@.subrange(chip8::FONT_SIZE as int, superchip::FONT_SIZE as int)
                            } else {
                                defaults::backend_font().subrange(
                                    chip8::FONT_SIZE as int,
                                    superchip::FONT_SIZE as int,
                                )
                            },
                            None => defaults::backend_font().subrange(
                                chip8::FONT_SIZE as int,
                                superchip::FONT_SIZE as int,
                            ),
                        };
                        b1@ == (superchip::SuperModel {
                            inner: Chip8Model {
                                memory: model::write_block(
                                    model::write_block(
                                        model::write_block(b0@.inner.memory, 0, fs),
                                        chip8::MEMORY_PADDING as int,
                                        program@,
                                    ),
                                    chip8::FONT_SIZE as int,
                                    hs,
                                ),
                                loaded: true,
                                ..b0@.inner
                            },
                            ..b0@
                        })
                    },
                    _ => false,
                }
            }),
    {
        match self {
            Backend::Chip8(backend) => {
                let r = backend.load(font, program);
                r
            },
            Backend::SuperChip(backend) => {
                let r = backend.load(font, program);
                r
            },
        }
    }

    /// The quirk options, for the host to reconfigure.
    pub fn get_options_mut(&mut self) -> (r: &mut Options)
        requires
            old(self).wf(),
        ensures
            final(self).wf(),
            match *old(self) {
                Backend::Chip8(b) => *r == b@.options,
                Backend::SuperChip(b) => *r == b@.inner.options,
            },
            match (*old(self), *final(self)) {
                (Backend::Chip8(b0), Backend::Chip8(b1)) => b1@ == (Chip8Model {
                    options: *final(r),
                    ..b0@
                }),
                (Backend::SuperChip(b0), Backend::SuperChip(b1)) => b1@ == (SuperModel {
                    inner: Chip8Model { options: *final(r), ..b0@.inner },
                    ..b0@
                }),
                _ => false,
            },
    {
        match self {
            Backend::Chip8(backend) => &mut backend.options,
            Backend::SuperChip(backend) => backend.options_mut(),
        }
    }

    /// Whether the program asked to halt; only the extended core can.
    pub fn has_program_exited(&self) -> (r: bool)
        ensures
            r == match self {
                Backend::Chip8(_) => false,
                Backend::SuperChip(b) => b@.program_exited,
            },
    {
        match self {
            Backend::Chip8(_) => false,
            Backend::SuperChip(backend) => backend.program_exited,
        }
    }

    /// Put the core back at the load offset with cleared registers,
    /// stack and timers, and blank the display.
    pub fn reset(&mut self)
        requires
            old(self).wf(),
            old(self).display() is Some,
        ensures
            final(self).wf(),
            match (*old(self), *final(self)) {
                (Backend::Chip8(b0), Backend::Chip8(b1)) => b1@ == (Chip8Model {
                    index: chip8::MEMORY_PADDING as int,
                    address: 0,
                    v: Seq::new(16nat, |i: int| 0u8),
                    stack: Seq::<u16>::empty(),
                    delay: 0,
                    sound: 0,
                    display: Some(
                        DisplayModel {
                            grid: interfaces::blank_grid(64, 32),
                            dirty: true,
                            ..b0@.display->Some_0
                        },
                    ),
                    ..b0@
                }),
                (Backend::SuperChip(b0), Backend::SuperChip(b1)) => b1@ == (SuperModel {
                    inner: Chip8Model {
                        index: chip8::MEMORY_PADDING as int,
                        address: 0,
                        v: Seq::new(16nat, |i: int| 0u8),
                        stack: Seq::<u16>::empty(),
                        delay: 0,
                        sound: 0,
                        ..b0@.inner
                    },
                    display: DisplayModel { grid: interfaces::blank_grid(128, 64), dirty: true, ..b0@.display },
                    program_exited: false,
                }),
                _ => false,
            },
    {
        match self {
            Backend::Chip8(backend) => {
                backend.reset();
                let db = backend.display_buffer.as_mut().unwrap();
                db.clear();
            },
            Backend::SuperChip(backend) => {
                backend.reset();
                backend.display_buffer.clear();
            },
        }
    }

    /// Run one frame of whichever core this is. The extended core
    /// exchanges registers with the eight persistent-storage bytes; the
    /// classic one leaves them alone.
    pub fn tick(
        &mut self,
        n: u8,
        keyboard_state: &mut KeypadState,
        persistent_storage: &mut Vec<u8>,
    ) -> (r: Result<(), BackendError>)
        requires
            old(self).wf(),
            old(keyboard_state).wf(),
            old(persistent_storage)@.len() == superchip::PERSISTENT_STORAGE_SIZE,
        ensures
            final(self).wf(),
            *final(keyboard_state) == *old(keyboard_state),
            final(persistent_storage)@.len() == superchip::PERSISTENT_STORAGE_SIZE,
            match (*old(self), *final(self)) {
                (Backend::Chip8(b0), Backend::Chip8(b1)) => final(persistent_storage)@ == old(
                    persistent_storage,
                )@ && exists|rnds: Seq<u8>|
                    rnds.len() == n && match chip8_tick(
                        b0@,
                        n as int,
                        *old(keyboard_state),
                        rnds,
                    ) {
                        TickRes::Done(m) => r == Ok::<(), BackendError>(()) && b1@ == m,
                        TickRes::Failed(m, e) => r == Err::<(), BackendError>(e) && b1@ == m,
                    },
                (Backend::SuperChip(b0), Backend::SuperChip(b1)) => exists|rnds: Seq<u8>|
                    rnds.len() == n && match super_tick(
                        b0@,
                        old(persistent_storage)@,
                        n as int,
                        *old(keyboard_state),
                        rnds,
                    ) {
                        STickRes::Done(m, st2) => r == Ok::<(), BackendError>(()) && b1@ == m
                            && final(persistent_storage)@ == st2,
                        STickRes::Failed(m, st2, e) => r == Err::<(), BackendError>(e) && b1@
                            == m && final(persistent_storage)@ == st2,
                    },
                _ => false,
            },
    {
        match self {
            Backend::Chip8(backend) => backend.tick(n, keyboard_state),
            Backend::SuperChip(backend) => backend.tick(n, keyboard_state, persistent_storage),
        }
    }

    /// The delay and sound timers, for the host to pace and beep by.
    pub fn get_timers(&self) -> (r: Timers)
        ensures
            r == match self {
                Backend::Chip8(b) => (Timers { delay: b@.delay, sound: b@.sound }),
                Backend::SuperChip(b) => (Timers { delay: b@.inner.delay, sound: b@.inner.sound }),
            },
    {
        match self {
            Backend::Chip8(backend) => backend.timers,
            Backend::SuperChip(backend) => *backend.timers(),
        }
    }
}

impl Default for Backend {
    /// The backend as shipped: the classic core with its defaults.
    fn default() -> (r: Self)
        ensures
            r.wf(),
            r matches Backend::Chip8(b) && !b@.loaded,
    {
        Backend::Chip8(chip8::Backend::default())
    }
}

} // verus!

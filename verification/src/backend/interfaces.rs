use vstd::prelude::*;

verus! {

/// Behaviour toggles of the display buffer.
#[derive(Clone, Copy, Debug, PartialEq, Eq, Structural)]
pub struct DisplayOptions {
    pub clip_sprites: bool,
    pub half_pixel_scrolling: bool,
}

/// Whether a keypad key is currently down.
#[derive(Clone, Copy, Debug, PartialEq, Eq, Structural)]
pub enum KeyState {
    Held,
    Released,
}

/// Two snapshots of the sixteen keys: the current one and the one taken
/// at the previous update, kept to detect release edges.
pub struct KeypadState {
    pub state: Vec<KeyState>,
    pub last_state: Vec<KeyState>,
}

/// The lowest release edge at or after key `k`, if any.
pub open spec fn first_released_from(kp: KeypadState, k: int) -> Option<int>
    decreases 16 - k,
{
    if k < 0 || k >= 16 {
        None
    } else if kp.falling_edge(k) {
        Some(k)
    } else {
        first_released_from(kp, k + 1)
    }
}

impl KeypadState {
    pub open spec fn wf(self) -> bool {
        self.state@.len() == 16 && self.last_state@.len() == 16
    }

    /// The lowest key showing a release edge, if any.
    pub open spec fn first_released(self) -> Option<int> {
        first_released_from(self, 0)
    }

    /// Key `k` is down in the current snapshot.
    pub open spec fn held(self, k: int) -> bool {
        self.state@[k] == KeyState::Held
    }

    /// Key `k` was down at the previous update and is up now.
    pub open spec fn falling_edge(self, k: int) -> bool {
        self.last_state@[k] == KeyState::Held && self.state@[k] == KeyState::Released
    }

    pub fn new() -> (r: Self)
        ensures
            r.wf(),
            forall|k: int| 0 <= k < 16 ==> !r.held(k) && !r.falling_edge(k),
    {
        let mut state: Vec<KeyState> = Vec::new();
        let mut last_state: Vec<KeyState> = Vec::new();
        let mut i: usize = 0;
        while i < 16
            invariant
                i <= 16,
                state@.len() == i,
                last_state@.len() == i,
                forall|k: int| 0 <= k < i ==> state@[k] == KeyState::Released,
                forall|k: int| 0 <= k < i ==> last_state@[k] == KeyState::Released,
            decreases 16 - i,
        {
            state.push(KeyState::Released);
            last_state.push(KeyState::Released);
            i += 1;
        }
        Self { state, last_state }
    }

    /// Whether key `key` is currently held down.
    pub fn pressed(&self, key: usize) -> (r: bool)
        requires
            self.wf(),
            key < 16,
        ensures
            r == self.held(key as int),
    {
        self.state[key] == KeyState::Held
    }

    /// The lowest key that went from held to released at the latest
    /// update, if any: the release edge the wait-for-key opcode watches.
    pub fn pressed_key(&self) -> (r: Option<usize>)
        requires
            self.wf(),
        ensures
            match r {
                Some(k) => k < 16 && self.falling_edge(k as int) && (forall|j: int|
                    0 <= j < k ==> !self.falling_edge(j)),
                None => forall|k: int| 0 <= k < 16 ==> !self.falling_edge(k),
            },
            self.first_released() == match r {
                Some(k) => Some(k as int),
                None => None::<int>,
            },
    {
        let mut i: usize = 0;
        while i < 16
            invariant
                self.wf(),
                i <= 16,
                forall|j: int| 0 <= j < i ==> !self.falling_edge(j),
                self.first_released() == first_released_from(*self, i as int),
            decreases 16 - i,
        {
            if self.last_state[i] == KeyState::Held && self.state[i] == KeyState::Released {
                return Some(i);
            }
            i += 1;
        }
        None
    }

    /// Take a fresh snapshot: the old current state becomes the previous
    /// one, and each key becomes held exactly when `held_keys` says so.
    pub fn update(&mut self, held_keys: &[bool; 16])
        requires
            old(self).wf(),
        ensures
            final(self).wf(),
            final(self).last_state@ == old(self).state@,
            forall|k: int| 0 <= k < 16 ==> final(self).state@[k] == (if held_keys[k] {
                KeyState::Held
            } else {
                KeyState::Released
            }),
    {
        let mut state: Vec<KeyState> = Vec::new();
        let mut i: usize = 0;
        while i < 16
            invariant
                i <= 16,
                state@.len() == i,
                forall|k: int| 0 <= k < i ==> state@[k] == (if held_keys[k] {
                    KeyState::Held
                } else {
                    KeyState::Released
                }),
            decreases 16 - i,
        {
            if held_keys[i] {
                state.push(KeyState::Held);
            } else {
                state.push(KeyState::Released);
            }
            i += 1;
        }
        let mut previous = state;
        core::mem::swap(&mut self.state, &mut previous);
        self.last_state = previous;
    }

    /// Force every key to released in both snapshots, clearing any
    /// pending release edge.
    pub fn release(&mut self)
        ensures
            final(self).wf(),
            forall|k: int| 0 <= k < 16 ==> !final(self).held(k) && !final(self).falling_edge(k),
    {
        let fresh = Self::new();
        self.state = fresh.state;
        self.last_state = fresh.last_state;
    }
}

} // verus!

verus! {

/// Mathematical model of a display buffer: a `height` x `width` grid of
/// pixels together with the dirty flag, the resolution mode and the
/// option toggles.
pub ghost struct DisplayModel {
    pub width: int,
    pub height: int,
    pub grid: Seq<Seq<bool>>,
    pub dirty: bool,
    pub half_resolution: bool,
    pub clip_sprites: bool,
    pub half_pixel_scrolling: bool,
}

/// An all-off pixel grid of the given dimensions.
pub open spec fn blank_grid(w: int, h: int) -> Seq<Seq<bool>> {
    Seq::new(h as nat, |i: int| Seq::new(w as nat, |j: int| false))
}

/// The grid, dimensions and mode flags fit together and the dimensions
/// are an even size a sprite row fits into.
pub open spec fn model_wf(d: DisplayModel) -> bool {
    &&& d.grid.len() == d.height
    &&& forall|i: int| 0 <= i < d.height ==> (#[trigger] d.grid[i]).len() == d.width
    &&& 16 <= d.width <= 8192
    &&& 32 <= d.height <= 8192
    &&& d.width % 2 == 0
    &&& d.height % 2 == 0
}

/// How far a scroll of `n` moves the pixels: lores emulation scrolls by
/// whole lores pixels, two hires pixels each, unless half-pixel
/// scrolling was asked for.
pub open spec fn scroll_amount(d: DisplayModel, n: int) -> int {
    if d.half_resolution && !d.half_pixel_scrolling {
        2 * n
    } else {
        n
    }
}

/// The display after scrolling everything down by `n`: vacated rows at
/// the top become blank. A scroll of zero is a no-op.
pub open spec fn scroll_down_model(d: DisplayModel, n: int) -> DisplayModel {
    if n == 0 {
        d
    } else {
        let e = scroll_amount(d, n);
        DisplayModel {
            grid: Seq::new(d.height as nat, |i: int| Seq::new(d.width as nat, |j: int|
                if i >= e { d.grid[i - e][j] } else { false })),
            dirty: true,
            ..d
        }
    }
}

/// The display after scrolling everything up by `n`: vacated rows at
/// the bottom become blank.
pub open spec fn scroll_up_model(d: DisplayModel, n: int) -> DisplayModel {
    if n == 0 {
        d
    } else {
        let e = scroll_amount(d, n);
        DisplayModel {
            grid: Seq::new(d.height as nat, |i: int| Seq::new(d.width as nat, |j: int|
                if i + e < d.height { d.grid[i + e][j] } else { false })),
            dirty: true,
            ..d
        }
    }
}

/// The display after scrolling everything left by `n`: vacated columns
/// at the right edge become blank.
pub open spec fn scroll_left_model(d: DisplayModel, n: int) -> DisplayModel {
    if n == 0 {
        d
    } else {
        let e = scroll_amount(d, n);
        DisplayModel {
            grid: Seq::new(d.height as nat, |i: int| Seq::new(d.width as nat, |j: int|
                if j + e < d.width { d.grid[i][j + e] } else { false })),
            dirty: true,
            ..d
        }
    }
}

/// The display after scrolling everything right by `n`: vacated columns
/// at the left edge become blank.
pub open spec fn scroll_right_model(d: DisplayModel, n: int) -> DisplayModel {
    if n == 0 {
        d
    } else {
        let e = scroll_amount(d, n);
        DisplayModel {
            grid: Seq::new(d.height as nat, |i: int| Seq::new(d.width as nat, |j: int|
                if j >= e { d.grid[i][j - e] } else { false })),
            dirty: true,
            ..d
        }
    }
}

/// In a row-major layout a cell of an earlier row comes before every
/// cell of a later row.
proof fn lemma_row_major_bound(a: int, b: int, i: int, w: int)
    requires
        0 <= a < i,
        0 <= b < w,
    ensures
        a * w + b < i * w,
{
    assert(a * w + b < i * w) by (nonlinear_arith)
        requires
            0 <= a < i,
            0 <= b < w,
    ;
}

/// A monochrome pixel grid of `W` columns and `H` rows that sprites are
/// drawn onto by XOR, with a dirty flag for the host and a lores
/// emulation mode used by the extended backend.
pub struct DisplayBuffer<const W: usize, const H: usize> {
    pub buffer: Vec<Vec<bool>>,
    pub dirty: bool,
    pub half_resolution: bool,
    pub options: DisplayOptions,
}

impl<const W: usize, const H: usize> View for DisplayBuffer<W, H> {
    type V = DisplayModel;

    open spec fn view(&self) -> DisplayModel {
        DisplayModel {
            width: W as int,
            height: H as int,
            grid: Seq::new(self.buffer@.len(), |i: int| self.buffer@[i]@),
            dirty: self.dirty,
            half_resolution: self.half_resolution,
            clip_sprites: self.options.clip_sprites,
            half_pixel_scrolling: self.options.half_pixel_scrolling,
        }
    }
}

impl<const W: usize, const H: usize> DisplayBuffer<W, H> {
    pub open spec fn wf(self) -> bool {
        model_wf(self@)
    }

    pub fn new(options: DisplayOptions) -> (r: Self)
        requires
            16 <= W <= 8192,
            32 <= H <= 8192,
            W as int % 2 == 0,
            H as int % 2 == 0,
        ensures
            r.wf(),
            r@ == (DisplayModel {
                width: W as int,
                height: H as int,
                grid: blank_grid(W as int, H as int),
                dirty: false,
                half_resolution: false,
                clip_sprites: options.clip_sprites,
                half_pixel_scrolling: options.half_pixel_scrolling,
            }),
    {
        let mut buffer: Vec<Vec<bool>> = Vec::new();
        let mut i: usize = 0;
        while i < H
            invariant
                i <= H,
                buffer@.len() == i,
                forall|a: int| 0 <= a < i ==> (#[trigger] buffer@[a])@ == Seq::new(
                    W as nat,
                    |j: int| false,
                ),
            decreases H - i,
        {
            let mut row: Vec<bool> = Vec::new();
            let mut j: usize = 0;
            while j < W
                invariant
                    j <= W,
                    row@ == Seq::new(j as nat, |b: int| false),
                decreases W - j,
            {
                row.push(false);
                proof {
                    assert(row@ =~= Seq::new(j as nat + 1, |b: int| false));
                }
                j += 1;
            }
            buffer.push(row);
            i += 1;
        }
        let r = Self { buffer, dirty: false, half_resolution: false, options };
        proof {
            assert(r@.grid =~~= blank_grid(W as int, H as int));
        }
        r
    }

    /// Turn every pixel off and mark the display dirty.
    pub fn clear(&mut self)
        requires
            old(self).wf(),
        ensures
            final(self).wf(),
            final(self)@ == (DisplayModel {
                grid: blank_grid(W as int, H as int),
                dirty: true,
                ..old(self)@
            }),
    {
        let fresh = Self::new(self.options);
        self.buffer = fresh.buffer;
        self.dirty = true;
        proof {
            assert(final(self)@.grid =~~= blank_grid(W as int, H as int));
        }
    }

    pub fn is_dirty(&self) -> (r: bool)
        ensures
            r == self@.dirty,
    {
        self.dirty
    }

    /// The pixel grid flattened row-major, for the host to render; reading
    /// it acknowledges the dirty flag.
    pub fn get_flattened(&mut self) -> (r: Vec<bool>)
        requires
            old(self).wf(),
        ensures
            final(self).wf(),
            final(self)@ == (DisplayModel { dirty: false, ..old(self)@ }),
            r@.len() == H * W,
            forall|i: int, j: int|
                0 <= i < H && 0 <= j < W ==> r@[i * (W as int) + j] == old(self)@.grid[i][j],
    {
        self.dirty = false;
        let mut r: Vec<bool> = Vec::new();
        let mut i: usize = 0;
        while i < H
            invariant
                *self == (DisplayBuffer { dirty: false, ..*old(self) }),
                old(self).wf(),
                i <= H,
                H <= 8192,
                W <= 8192,
                r@.len() == i * W,
                forall|a: int, b: int|
                    0 <= a < i && 0 <= b < W ==> r@[a * (W as int) + b] == old(self)@.grid[a][b],
            decreases H - i,
        {
            let mut j: usize = 0;
            while j < W
                invariant
                    *self == (DisplayBuffer { dirty: false, ..*old(self) }),
                    old(self).wf(),
                    i < H,
                    j <= W,
                    H <= 8192,
                    W <= 8192,
                    r@.len() == i * W + j,
                    forall|a: int, b: int|
                        0 <= a < i && 0 <= b < W ==> r@[a * (W as int) + b] == old(self)@.grid[a][b],
                    forall|b: int| 0 <= b < j ==> r@[i * (W as int) + b] == old(self)@.grid[i as int][b],
                decreases W - j,
            {
                proof {
                    assert(self@.grid[i as int].len() == W as int);
                    assert(self@.grid[i as int][j as int] == old(self)@.grid[i as int][j as int]);
                    assert forall|a: int, b: int| 0 <= a < i && 0 <= b < W implies #[trigger] (a
                        * (W as int) + b) < i * (W as int) + j by {
                        lemma_row_major_bound(a, b, i as int, W as int);
                    }
                }
                r.push(self.buffer[i][j]);
                j += 1;
            }
            proof {
                assert((i + 1) * (W as int) == i * (W as int) + W as int) by (nonlinear_arith);
            }
            i += 1;
        }
        r
    }
}

} // verus!

verus! {

impl<const W: usize, const H: usize> DisplayBuffer<W, H> {
    /// Shift every pixel `n` rows towards the bottom edge.
    pub fn scroll_down(&mut self, n: usize)
        requires
            old(self).wf(),
        ensures
            final(self).wf(),
            final(self)@ == scroll_down_model(old(self)@, n as int),
    {
        if n == 0 {
            return;
        }
        let e: usize = if self.half_resolution && !self.options.half_pixel_scrolling {
            if n >= H {
                H
            } else {
                2 * n
            }
        } else {
            n
        };
        let ghost eff = scroll_amount(old(self)@, n as int);
        let mut nb: Vec<Vec<bool>> = Vec::new();
        let mut i: usize = 0;
        while i < H
            invariant
                *self == *old(self),
                old(self).wf(),
                i <= H,
                (e as int == eff) || (e == H && eff >= H),
                nb@.len() == i,
                forall|a: int| 0 <= a < i ==> (#[trigger] nb@[a])@ == Seq::new(
                    W as nat,
                    |b: int| if a >= eff { old(self)@.grid[a - eff][b] } else { false },
                ),
            decreases H - i,
        {
            let mut row: Vec<bool> = Vec::new();
            let mut j: usize = 0;
            while j < W
                invariant
                    *self == *old(self),
                    old(self).wf(),
                    i < H,
                    j <= W,
                    (e as int == eff) || (e == H && eff >= H),
                    row@.len() == j,
                    forall|b: int| 0 <= b < j ==> row@[b] == (if i as int >= eff {
                        old(self)@.grid[i - eff][b]
                    } else {
                        false
                    }),
                decreases W - j,
            {
                let v = if i >= e {
                    proof {
                        assert(self@.grid.len() == H as int);
                        assert(self@.grid[i as int - e as int].len() == W as int);
                    }
                    self.buffer[i - e][j]
                } else {
                    false
                };
                row.push(v);
                j += 1;
            }
            proof {
                assert(row@ =~= Seq::new(
                    W as nat,
                    |b: int| if i as int >= eff { old(self)@.grid[i - eff][b] } else { false },
                ));
            }
            nb.push(row);
            i += 1;
        }
        self.buffer = nb;
        self.dirty = true;
        proof {
            assert(final(self)@.grid =~~= scroll_down_model(old(self)@, n as int).grid);
        }
    }

    /// Shift every pixel `n` rows towards the top edge.
    pub fn scroll_up(&mut self, n: usize)
        requires
            old(self).wf(),
        ensures
            final(self).wf(),
            final(self)@ == scroll_up_model(old(self)@, n as int),
    {
        if n == 0 {
            return;
        }
        let e: usize = if self.half_resolution && !self.options.half_pixel_scrolling {
            if n >= H {
                H
            } else {
                2 * n
            }
        } else {
            n
        };
        let ghost eff = scroll_amount(old(self)@, n as int);
        let mut nb: Vec<Vec<bool>> = Vec::new();
        let mut i: usize = 0;
        while i < H
            invariant
                *self == *old(self),
                old(self).wf(),
                i <= H,
                (e as int == eff) || (e == H && eff >= H),
                nb@.len() == i,
                forall|a: int| 0 <= a < i ==> (#[trigger] nb@[a])@ == Seq::new(
                    W as nat,
                    |b: int| if a + eff < H as int { old(self)@.grid[a + eff][b] } else { false },
                ),
            decreases H - i,
        {
            let mut row: Vec<bool> = Vec::new();
            let mut j: usize = 0;
            while j < W
                invariant
                    *self == *old(self),
                    old(self).wf(),
                    i < H,
                    j <= W,
                    (e as int == eff) || (e == H && eff >= H),
                    row@.len() == j,
                    forall|b: int| 0 <= b < j ==> row@[b] == (if i as int + eff < H as int {
                        old(self)@.grid[i + eff][b]
                    } else {
                        false
                    }),
                decreases W - j,
            {
                let v = if e < H && i + e < H {
                    proof {
                        assert(self@.grid.len() == H as int);
                        assert(self@.grid[i as int + e as int].len() == W as int);
                    }
                    self.buffer[i + e][j]
                } else {
                    false
                };
                row.push(v);
                j += 1;
            }
            proof {
                assert(row@ =~= Seq::new(
                    W as nat,
                    |b: int| if i as int + eff < H as int {
                        old(self)@.grid[i + eff][b]
                    } else {
                        false
                    },
                ));
            }
            nb.push(row);
            i += 1;
        }
        self.buffer = nb;
        self.dirty = true;
        proof {
            assert(final(self)@.grid =~~= scroll_up_model(old(self)@, n as int).grid);
        }
    }

    /// Shift every pixel `n` columns towards the left edge.
    pub fn scroll_left(&mut self, n: usize)
        requires
            old(self).wf(),
        ensures
            final(self).wf(),
            final(self)@ == scroll_left_model(old(self)@, n as int),
    {
        if n == 0 {
            return;
        }
        let e: usize = if self.half_resolution && !self.options.half_pixel_scrolling {
            if n >= W {
                W
            } else {
                2 * n
            }
        } else {
            n
        };
        let ghost eff = scroll_amount(old(self)@, n as int);
        let mut nb: Vec<Vec<bool>> = Vec::new();
        let mut i: usize = 0;
        while i < H
            invariant
                *self == *old(self),
                old(self).wf(),
                i <= H,
                (e as int == eff) || (e == W && eff >= W),
                nb@.len() == i,
                forall|a: int| 0 <= a < i ==> (#[trigger] nb@[a])@ == Seq::new(
                    W as nat,
                    |b: int| if b + eff < W as int { old(self)@.grid[a][b + eff] } else { false },
                ),
            decreases H - i,
        {
            let mut row: Vec<bool> = Vec::new();
            let mut j: usize = 0;
            while j < W
                invariant
                    *self == *old(self),
                    old(self).wf(),
                    i < H,
                    j <= W,
                    (e as int == eff) || (e == W && eff >= W),
                    row@.len() == j,
                    forall|b: int| 0 <= b < j ==> row@[b] == (if b + eff < W as int {
                        old(self)@.grid[i as int][b + eff]
                    } else {
                        false
                    }),
                decreases W - j,
            {
                let v = if e < W && j + e < W {
                    proof {
                        assert(self@.grid.len() == H as int);
                        assert(self@.grid[i as int].len() == W as int);
                    }
                    self.buffer[i][j + e]
                } else {
                    false
                };
                row.push(v);
                j += 1;
            }
            proof {
                assert(row@ =~= Seq::new(
                    W as nat,
                    |b: int| if b + eff < W as int {
                        old(self)@.grid[i as int][b + eff]
                    } else {
                        false
                    },
                ));
            }
            nb.push(row);
            i += 1;
        }
        self.buffer = nb;
        self.dirty = true;
        proof {
            assert(final(self)@.grid =~~= scroll_left_model(old(self)@, n as int).grid);
        }
    }

    /// Shift every pixel `n` columns towards the right edge.
    pub fn scroll_right(&mut self, n: usize)
        requires
            old(self).wf(),
        ensures
            final(self).wf(),
            final(self)@ == scroll_right_model(old(self)@, n as int),
    {
        if n == 0 {
            return;
        }
        let e: usize = if self.half_resolution && !self.options.half_pixel_scrolling {
            if n >= W {
                W
            } else {
                2 * n
            }
        } else {
            n
        };
        let ghost eff = scroll_amount(old(self)@, n as int);
        let mut nb: Vec<Vec<bool>> = Vec::new();
        let mut i: usize = 0;
        while i < H
            invariant
                *self == *old(self),
                old(self).wf(),
                i <= H,
                (e as int == eff) || (e == W && eff >= W),
                nb@.len() == i,
                forall|a: int| 0 <= a < i ==> (#[trigger] nb@[a])@ == Seq::new(
                    W as nat,
                    |b: int| if b >= eff { old(self)@.grid[a][b - eff] } else { false },
                ),
            decreases H - i,
        {
            let mut row: Vec<bool> = Vec::new();
            let mut j: usize = 0;
            while j < W
                invariant
                    *self == *old(self),
                    old(self).wf(),
                    i < H,
                    j <= W,
                    (e as int == eff) || (e == W && eff >= W),
                    row@.len() == j,
                    forall|b: int| 0 <= b < j ==> row@[b] == (if b as int >= eff {
                        old(self)@.grid[i as int][b - eff]
                    } else {
                        false
                    }),
                decreases W - j,
            {
                let v = if j >= e {
                    proof {
                        assert(self@.grid.len() == H as int);
                        assert(self@.grid[i as int].len() == W as int);
                    }
                    self.buffer[i][j - e]
                } else {
                    false
                };
                row.push(v);
                j += 1;
            }
            proof {
                assert(row@ =~= Seq::new(
                    W as nat,
                    |b: int| if b as int >= eff {
                        old(self)@.grid[i as int][b - eff]
                    } else {
                        false
                    },
                ));
            }
            nb.push(row);
            i += 1;
        }
        self.buffer = nb;
        self.dirty = true;
        proof {
            assert(final(self)@.grid =~~= scroll_right_model(old(self)@, n as int).grid);
        }
    }
}

} // verus!

use super::sprite::block_set;
use super::sprite::colx;
use super::sprite::bit16;
use super::sprite::col_drawn;
use super::sprite::row_hit;
use super::sprite::row_hit_upto;
use super::sprite::row_collides;
use super::sprite::row_collides_upto;
use super::sprite::lemma_window;
use super::sprite::lemma_windows_disjoint;
use super::sprite::lemma_row_hit_succ;
use super::sprite::lemma_row_coll_succ;
use super::sprite::lemma_row_cutoff;

verus! {

impl<const W: usize, const H: usize> DisplayBuffer<W, H> {
    /// Flip one pixel; report whether it was lit before.
    fn xor_cell(&mut self, i: usize, j: usize) -> (was: bool)
        requires
            old(self).wf(),
            i < H,
            j < W,
        ensures
            final(self).wf(),
            final(self)@ == (DisplayModel { grid: final(self)@.grid, ..old(self)@ }),
            forall|a: int, b: int|
                0 <= a < H && 0 <= b < W ==> final(self)@.grid[a][b] == (old(self)@.grid[a][b] != (a
                    == i && b == j)),
            was == old(self)@.grid[i as int][j as int],
    {
        proof {
            assert(self@.grid.len() == H as int);
            assert(self@.grid[i as int].len() == W as int);
        }
        let v = self.buffer[i][j];
        self.buffer[i][j] = !v;
        proof {
            assert(final(self)@.grid =~= old(self)@.grid.update(
                i as int,
                old(self)@.grid[i as int].update(j as int, !old(self)@.grid[i as int][j as int]),
            ));
            assert(forall|a: int|
                0 <= a < H ==> (#[trigger] final(self)@.grid[a]).len() == W as int);
        }
        v
    }

    /// Flip the `s` by `s` pixel block whose top-left corner is
    /// (`ry`, `cx`); report whether any of its pixels was lit before.
    fn xor_block(&mut self, ry: usize, cx: usize, s: usize) -> (was: bool)
        requires
            old(self).wf(),
            s == 1 || s == 2,
            ry + s <= H,
            cx + s <= W,
        ensures
            final(self).wf(),
            final(self)@ == (DisplayModel { grid: final(self)@.grid, ..old(self)@ }),
            forall|a: int, b: int|
                0 <= a < H && 0 <= b < W ==> final(self)@.grid[a][b] == (old(self)@.grid[a][b] != (
                ry <= a < ry + s && cx <= b < cx + s)),
            was == block_set(old(self)@.grid, ry as int, cx as int, s as int),
    {
        if s == 1 {
            self.xor_cell(ry, cx)
        } else {
            let w1 = self.xor_cell(ry, cx);
            let w2 = self.xor_cell(ry, cx + 1);
            let w3 = self.xor_cell(ry + 1, cx);
            let w4 = self.xor_cell(ry + 1, cx + 1);
            w1 || w2 || w3 || w4
        }
    }

    /// Draw one sprite row whose word has already been placed: flip the
    /// window of each lit bit at display row `ry`, clipping or wrapping
    /// at the right edge; report whether a lit pixel was cleared.
    fn draw_row_core(&mut self, ry: usize, cx0: usize, word: u16, nbits: usize, s: usize) -> (collided: bool)
        requires
            old(self).wf(),
            s == 1 || s == 2,
            nbits == 8 || nbits == 16,
            nbits == 16 ==> s == 1,
            s == 2 ==> nbits == 8 && ry % 2 == 0 && cx0 % 2 == 0,
            ry + s <= H,
            cx0 < W,
        ensures
            final(self).wf(),
            final(self)@ == (DisplayModel { grid: final(self)@.grid, ..old(self)@ }),
            forall|a: int, b: int|
                0 <= a < H && 0 <= b < W ==> final(self)@.grid[a][b] == (old(self)@.grid[a][b] != (
                ry <= a < ry + s && row_hit(
                    word,
                    nbits as int,
                    old(self)@.clip_sprites,
                    cx0 as int,
                    s as int,
                    W as int,
                    b,
                ))),
            collided == row_collides(
                old(self)@.grid,
                word,
                nbits as int,
                old(self)@.clip_sprites,
                cx0 as int,
                s as int,
                W as int,
                ry as int,
            ),
    {
        let clip = self.options.clip_sprites;
        let mut collided = false;
        let mut x: usize = 0;
        while x < nbits
            invariant_except_break
                old(self).wf(),
                self.wf(),
                s == 1 || s == 2,
                nbits == 8 || nbits == 16,
                nbits == 16 ==> s == 1,
                s == 2 ==> nbits == 8 && ry % 2 == 0 && cx0 % 2 == 0,
                ry + s <= H,
                cx0 < W,
                x <= nbits,
                16 <= W as int <= 8192,
                clip == old(self)@.clip_sprites,
                clip ==> cx0 + x * s <= W,
                self@ == (DisplayModel { grid: self@.grid, ..old(self)@ }),
                forall|a: int, b: int|
                    0 <= a < H && 0 <= b < W ==> self@.grid[a][b] == (old(self)@.grid[a][b] != (ry
                        <= a < ry + s && row_hit_upto(
                        word,
                        x as int,
                        clip,
                        cx0 as int,
                        s as int,
                        W as int,
                        b,
                    ))),
                collided == row_collides_upto(
                    old(self)@.grid,
                    word,
                    x as int,
                    clip,
                    cx0 as int,
                    s as int,
                    W as int,
                    ry as int,
                ),
            ensures
                self.wf(),
                self@ == (DisplayModel { grid: self@.grid, ..old(self)@ }),
                forall|a: int, b: int|
                    0 <= a < H && 0 <= b < W ==> self@.grid[a][b] == (old(self)@.grid[a][b] != (ry
                        <= a < ry + s && row_hit(
                        word,
                        nbits as int,
                        clip,
                        cx0 as int,
                        s as int,
                        W as int,
                        b,
                    ))),
                collided == row_collides(
                    old(self)@.grid,
                    word,
                    nbits as int,
                    clip,
                    cx0 as int,
                    s as int,
                    W as int,
                    ry as int,
                ),
            decreases nbits - x,
        {
            proof {
                assert(x * s <= 32) by (nonlinear_arith)
                    requires
                        0 <= x <= 16,
                        0 <= s <= 2,
                ;
            }
            let cxr = cx0 + x * s;
            if clip && cxr == W {
                proof {
                    lemma_row_cutoff(
                        old(self)@.grid,
                        word,
                        nbits as int,
                        x as int,
                        clip,
                        cx0 as int,
                        s as int,
                        W as int,
                        ry as int,
                    );
                }
                break;
            }
            proof {
                lemma_window(cx0 as int, s as int, W as int, x as int);
            }
            let cx = cxr % W;
            let bit = ((word >> ((15 - x) as u16)) & 1) == 1;
            let ghost pre = self@.grid;
            if bit {
                proof {
                    assert forall|x1: int| 0 <= x1 < x implies #[trigger] colx(
                        cx0 as int,
                        s as int,
                        W as int,
                        x1,
                    ) + s <= cx as int || cx as int + s <= colx(cx0 as int, s as int, W as int, x1) by {
                        lemma_windows_disjoint(cx0 as int, s as int, W as int, x1, x as int);
                    }
                    assert forall|a: int, b: int|
                        ry <= a < ry + s && cx <= b < cx + s implies pre[a][b] == old(
                        self,
                    )@.grid[a][b] by {
                        assert(!row_hit_upto(word, x as int, clip, cx0 as int, s as int, W as int, b));
                    }
                }
                let was = self.xor_block(ry, cx, s);
                collided = collided || was;
            }
            proof {
                lemma_row_coll_succ(
                    old(self)@.grid,
                    word,
                    x as int,
                    clip,
                    cx0 as int,
                    s as int,
                    W as int,
                    ry as int,
                );
                assert(col_drawn(clip, cx0 as int, s as int, W as int, x as int));
                assert forall|a: int, b: int| 0 <= a < H && 0 <= b < W implies self@.grid[a][b] == (
                old(self)@.grid[a][b] != (ry <= a < ry + s && row_hit_upto(
                    word,
                    (x + 1) as int,
                    clip,
                    cx0 as int,
                    s as int,
                    W as int,
                    b,
                ))) by {
                    lemma_row_hit_succ(word, x as int, clip, cx0 as int, s as int, W as int, b);
                }
            }
            x += 1;
        }
        collided
    }
}

} // verus!

use super::sprite::SpriteDraw;
use super::sprite::lemma_row_coll_congruence;
use super::sprite::lemma_toggles_succ;
use super::sprite::lemma_toggles_cutoff;
use super::sprite::lemma_coll_count_stable;
use vstd::arithmetic::div_mod::lemma_fundamental_div_mod;
use vstd::arithmetic::div_mod::lemma_mod_multiples_basic;
use vstd::arithmetic::div_mod::lemma_div_multiples_vanish;

verus! {

impl<const W: usize, const H: usize> DisplayBuffer<W, H> {
    /// Draw a sprite whose rows have been placed as left-aligned words
    /// at the already wrapped top-left corner (`cy0`, `cx0`): XOR every
    /// lit bit onto the grid and return the colliding-row count.
    fn draw_core(&mut self, cy0: usize, cx0: usize, rows: &Vec<u16>, nbits: usize, s: usize) -> (count: usize)
        requires
            old(self).wf(),
            s == 1 || s == 2,
            nbits == 8 || nbits == 16,
            nbits == 16 ==> s == 1,
            s == 2 ==> nbits == 8 && cy0 % 2 == 0 && cx0 % 2 == 0,
            cy0 < H,
            cx0 < W,
            rows@.len() <= 16,
            s == 2 ==> rows@.len() <= 15,
        ensures
            final(self).wf(),
            ({
                let p = SpriteDraw {
                    g0: old(self)@.grid,
                    w: W as int,
                    h: H as int,
                    clip: old(self)@.clip_sprites,
                    s: s as int,
                    cx0: cx0 as int,
                    cy0: cy0 as int,
                    rows: rows@,
                    nbits: nbits as int,
                };
                final(self)@ == (DisplayModel { grid: p.grid_after(), dirty: true, ..old(self)@ })
                    && count == p.count()
            }),
            count <= rows@.len(),
    {
        let ghost p = SpriteDraw {
            g0: old(self)@.grid,
            w: W as int,
            h: H as int,
            clip: old(self)@.clip_sprites,
            s: s as int,
            cx0: cx0 as int,
            cy0: cy0 as int,
            rows: rows@,
            nbits: nbits as int,
        };
        let clip = self.options.clip_sprites;
        let len = rows.len();
        // How many rows land before the bottom edge; with clipping the
        // rest is cut off and only counted.
        let q = H - cy0;
        let qd = q / s;
        let y_end = if clip && qd < len {
            qd
        } else {
            len
        };
        proof {
            assert(q as int % (s as int) == 0);
            lemma_fundamental_div_mod(q as int, s as int);
            assert forall|y1: int| 0 <= y1 implies (p.row_drawn(y1) <==> (!clip || y1
                < qd as int)) by {
                if y1 < qd as int {
                    assert(y1 * s <= (qd - 1) * s) by (nonlinear_arith)
                        requires
                            y1 <= qd - 1,
                            s >= 1,
                    ;
                    assert((qd - 1) * s == qd * s - s) by (nonlinear_arith);
                    assert((s as int) * (qd as int) == qd * s) by (nonlinear_arith);
                } else {
                    assert(y1 * s >= qd * s) by (nonlinear_arith)
                        requires
                            y1 >= qd as int,
                            s >= 1,
                    ;
                    assert((s as int) * (qd as int) == qd * s) by (nonlinear_arith);
                }
            }
        }
        let mut count: usize = 0;
        let mut y: usize = 0;
        while y < y_end
            invariant
                old(self).wf(),
                self.wf(),
                s == 1 || s == 2,
                nbits == 8 || nbits == 16,
                nbits == 16 ==> s == 1,
                s == 2 ==> nbits == 8 && cy0 % 2 == 0 && cx0 % 2 == 0,
                cy0 < H,
                cx0 < W,
                16 <= W as int <= 8192,
                32 <= H as int <= 8192,
                len == rows@.len(),
                len <= 16,
                s == 2 ==> len <= 15,
                p == (SpriteDraw {
                    g0: old(self)@.grid,
                    w: W as int,
                    h: H as int,
                    clip: old(self)@.clip_sprites,
                    s: s as int,
                    cx0: cx0 as int,
                    cy0: cy0 as int,
                    rows: rows@,
                    nbits: nbits as int,
                }),
                y <= y_end <= len,
                count <= y,
                clip == old(self)@.clip_sprites,
                forall|y1: int| 0 <= y1 ==> (p.row_drawn(y1) <==> (!clip || y1 < qd as int)),
                y_end as int == (if clip && (qd as int) < len as int {
                    qd as int
                } else {
                    len as int
                }),
                self@ == (DisplayModel { grid: self@.grid, ..old(self)@ }),
                forall|a: int, b: int|
                    0 <= a < H && 0 <= b < W ==> self@.grid[a][b] == (old(self)@.grid[a][b]
                        != p.toggles_upto(y as int, a, b)),
                count == p.coll_count(y as int),
            decreases y_end - y,
        {
            let cyr = cy0 + y * s;
            proof {
                lemma_window(cy0 as int, s as int, H as int, y as int);
                assert forall|y1: int| 0 <= y1 < y implies #[trigger] p.rowy(y1) + s <= p.rowy(
                    y as int,
                ) || p.rowy(y as int) + s <= p.rowy(y1) by {
                    lemma_windows_disjoint(cy0 as int, s as int, H as int, y1, y as int);
                    assert(p.rowy(y1) == colx(cy0 as int, s as int, H as int, y1));
                    assert(p.rowy(y as int) == colx(cy0 as int, s as int, H as int, y as int));
                }
            }
            let ry = cyr % H;
            let ghost pre = self@.grid;
            proof {
                assert(ry as int == p.rowy(y as int));
                assert forall|a: int, b: int| ry <= a < ry + s && 0 <= b < W implies pre[a][b]
                    == old(self)@.grid[a][b] by {
                    if p.toggles_upto(y as int, a, b) {
                        let y1 = choose|y1: int|
                            0 <= y1 < y && p.row_drawn(y1) && #[trigger] p.rowy(y1) <= a < p.rowy(
                                y1,
                            ) + p.s && p.hits(y1, b);
                        assert(false);
                    }
                }
            }
            let word = rows[y];
            let collided = self.draw_row_core(ry, cx0, word, nbits, s);
            if collided {
                count += 1;
            }
            proof {
                assert forall|x: int| 0 <= x < nbits implies 0 <= #[trigger] colx(
                    cx0 as int,
                    s as int,
                    W as int,
                    x,
                ) && colx(cx0 as int, s as int, W as int, x) + s <= W as int by {
                    assert((x + 1) * s <= 16) by (nonlinear_arith)
                        requires
                            0 <= x,
                            s == 1 || s == 2,
                            (s == 1 && x < 16) || (s == 2 && x < 8),
                    ;
                    lemma_window(cx0 as int, s as int, W as int, x);
                }
                lemma_row_coll_congruence(
                    pre,
                    old(self)@.grid,
                    word,
                    nbits as int,
                    clip,
                    cx0 as int,
                    s as int,
                    W as int,
                    ry as int,
                );
                assert(p.row_drawn(y as int));
                assert(p.row_coll(y as int) == collided);
                assert(count == p.coll_count(y as int + 1));
                assert forall|a: int, b: int| 0 <= a < H && 0 <= b < W implies self@.grid[a][b] == (
                old(self)@.grid[a][b] != p.toggles_upto(y as int + 1, a, b)) by {
                    lemma_toggles_succ(p, y as int, a, b);
                    assert(pre[a][b] == (old(self)@.grid[a][b] != p.toggles_upto(y as int, a, b)));
                }
            }
            y += 1;
        }
        proof {
            assert forall|y1: int| y_end as int <= y1 < len implies !p.row_drawn(y1) by {}
            assert forall|a: int, b: int| 0 <= a < H && 0 <= b < W implies p.toggles(a, b)
                == p.toggles_upto(y_end as int, a, b) by {
                lemma_toggles_cutoff(p, y_end as int, a, b);
            }
            lemma_coll_count_stable(p, y_end as int, len as int);
            if nbits == 16 && clip && qd < len {
                assert(p.penalty() == len - y_end);
            } else {
                assert(p.penalty() == 0);
            }
        }
        if nbits == 16 && clip && y_end < len {
            count += len - y_end;
        }
        self.dirty = true;
        proof {
            assert(final(self)@.grid =~~= p.grid_after());
        }
        count
    }
}

} // verus!

use super::sprite::byte_rows;
use super::sprite::words16;
use super::sprite::sprite_draw_of;
use super::sprite::draw_model;
use super::sprite::draw16_model;
use super::sprite::lemma_mod_window;
use vstd::arithmetic::div_mod::lemma_mul_mod_noop_left;
use vstd::arithmetic::div_mod::lemma_mod_division_less_than_divisor;

verus! {

impl<const W: usize, const H: usize> DisplayBuffer<W, H> {
    /// Draw a 16 by 16 sprite given as sixteen big-endian row words at
    /// the given coordinates, taken modulo the display size; report the
    /// colliding-row count.
    pub fn draw_16x16(&mut self, coordinates: (usize, usize), sprite: &Vec<u16>) -> (count: usize)
        requires
            old(self).wf(),
            sprite@.len() <= 16,
        ensures
            final(self).wf(),
            ({
                let (dm, cnt) = draw16_model(
                    old(self)@,
                    coordinates.0 as int,
                    coordinates.1 as int,
                    sprite@,
                );
                final(self)@ == dm && count == cnt
            }),
            count <= 16,
    {
        let cx0 = coordinates.0 % W;
        let cy0 = coordinates.1 % H;
        self.draw_core(cy0, cx0, sprite, 16, 1)
    }

    /// Draw a sprite of raw bytes at the given coordinates, taken
    /// modulo the display size: one byte per row, scaled to 2 by 2
    /// blocks in lores emulation, or a 16 by 16 draw for a 32-byte
    /// sprite in hires mode. Reports the colliding-row count.
    pub fn draw(&mut self, coordinates: (usize, usize), sprite: &Vec<u8>) -> (count: usize)
        requires
            old(self).wf(),
            sprite@.len() <= 15 || (sprite@.len() == 32 && !old(self)@.half_resolution),
        ensures
            final(self).wf(),
            ({
                let (dm, cnt) = draw_model(
                    old(self)@,
                    coordinates.0 as int,
                    coordinates.1 as int,
                    sprite@,
                );
                final(self)@ == dm && count == cnt
            }),
            count <= 16,
    {
        if sprite.len() == 32 && !self.half_resolution {
            let mut words: Vec<u16> = Vec::new();
            let mut i: usize = 0;
            while i < 16
                invariant
                    i <= 16,
                    sprite@.len() == 32,
                    words@.len() == i,
                    forall|k: int| 0 <= k < i ==> words@[k] == words16(sprite@)[k],
                decreases 16 - i,
            {
                words.push((sprite[2 * i] as u16) * 256 + (sprite[2 * i + 1] as u16));
                i += 1;
            }
            proof {
                assert(words@ =~= words16(sprite@));
            }
            return self.draw_16x16(coordinates, &words);
        }
        let scale: usize = if self.half_resolution {
            2
        } else {
            1
        };
        let cx0 = (coordinates.0 % W) * scale % W;
        let cy0 = (coordinates.1 % H) * scale % H;
        proof {
            lemma_mul_mod_noop_left(coordinates.0 as int, scale as int, W as int);
            lemma_mul_mod_noop_left(coordinates.1 as int, scale as int, H as int);
            if scale == 2 {
                lemma_mod_window(((coordinates.0 as int % W as int) * 2), W as int);
                lemma_mod_window(((coordinates.1 as int % H as int) * 2), H as int);
            }
        }
        let mut words: Vec<u16> = Vec::new();
        let mut i: usize = 0;
        let len = sprite.len();
        while i < len
            invariant
                i <= len,
                len == sprite@.len(),
                words@.len() == i,
                forall|k: int| 0 <= k < i ==> words@[k] == byte_rows(sprite@)[k],
            decreases len - i,
        {
            words.push((sprite[i] as u16) * 256);
            i += 1;
        }
        proof {
            assert(words@ =~= byte_rows(sprite@));
        }
        self.draw_core(cy0, cx0, &words, 8, scale)
    }
}

} // verus!

use vstd::arithmetic::div_mod::lemma_fundamental_div_mod;
use vstd::arithmetic::div_mod::lemma_mod_sub_multiples_vanish;
use vstd::arithmetic::div_mod::lemma_small_mod;
use vstd::prelude::*;

use super::interfaces::DisplayModel;

verus! {

/// Bit `x` of a sprite row word, counted from the most significant end.
pub open spec fn bit16(word: u16, x: int) -> bool {
    (word >> ((15 - x) as u16)) & 1u16 == 1u16
}

/// The leftmost display column that bit `x` of a row lands on.
pub open spec fn colx(cx0: int, s: int, w: int, x: int) -> int {
    (cx0 + x * s) % w
}

/// Whether bit `x` is rendered: with clipping a bit past the right edge
/// is dropped, without it the bit wraps around.
pub open spec fn col_drawn(clip: bool, cx0: int, s: int, w: int, x: int) -> bool {
    !clip || cx0 + x * s < w
}

/// Column `j` is toggled by one of the first `k` bits of the row word.
pub open spec fn row_hit_upto(
    word: u16,
    k: int,
    clip: bool,
    cx0: int,
    s: int,
    w: int,
    j: int,
) -> bool {
    exists|x: int|
        0 <= x < k && col_drawn(clip, cx0, s, w, x) && bit16(word, x) && #[trigger] colx(
            cx0,
            s,
            w,
            x,
        ) <= j < colx(cx0, s, w, x) + s
}

/// Column `j` is toggled by some bit of an `nbits`-wide row word.
pub open spec fn row_hit(
    word: u16,
    nbits: int,
    clip: bool,
    cx0: int,
    s: int,
    w: int,
    j: int,
) -> bool {
    row_hit_upto(word, nbits, clip, cx0, s, w, j)
}

/// Some pixel of the `s` by `s` block whose top-left corner is
/// (`ry`, `cx`) is lit in grid `g`.
pub open spec fn block_set(g: Seq<Seq<bool>>, ry: int, cx: int, s: int) -> bool {
    g[ry][cx] || (s == 2 && (g[ry][cx + 1] || g[ry + 1][cx] || g[ry + 1][cx + 1]))
}

/// One of the first `k` bits of the row word lands on a lit pixel.
pub open spec fn row_collides_upto(
    g: Seq<Seq<bool>>,
    word: u16,
    k: int,
    clip: bool,
    cx0: int,
    s: int,
    w: int,
    ry: int,
) -> bool {
    exists|x: int|
        0 <= x < k && col_drawn(clip, cx0, s, w, x) && bit16(word, x) && block_set(
            g,
            ry,
            #[trigger] colx(cx0, s, w, x),
            s,
        )
}

/// Some bit of the `nbits`-wide row word lands on a lit pixel: drawing
/// this row at grid row `ry` clears a pixel.
pub open spec fn row_collides(
    g: Seq<Seq<bool>>,
    word: u16,
    nbits: int,
    clip: bool,
    cx0: int,
    s: int,
    w: int,
    ry: int,
) -> bool {
    row_collides_upto(g, word, nbits, clip, cx0, s, w, ry)
}

/// One sprite draw, fully instantiated: the grid it starts from, the
/// display geometry, the clipping choice, the pixel scale `s` (1, or 2
/// for lores emulation), the wrapped top-left corner, and the sprite
/// rows as left-aligned 16-bit words of which the top `nbits` count.
pub ghost struct SpriteDraw {
    pub g0: Seq<Seq<bool>>,
    pub w: int,
    pub h: int,
    pub clip: bool,
    pub s: int,
    pub cx0: int,
    pub cy0: int,
    pub rows: Seq<u16>,
    pub nbits: int,
}

impl SpriteDraw {
    pub open spec fn wf(self) -> bool {
        &&& self.g0.len() == self.h
        &&& forall|i: int| 0 <= i < self.h ==> (#[trigger] self.g0[i]).len() == self.w
        &&& 16 <= self.w <= 8192
        &&& 32 <= self.h <= 8192
        &&& self.w % 2 == 0
        &&& self.h % 2 == 0
        &&& (self.s == 1 || self.s == 2)
        &&& (self.nbits == 8 || self.nbits == 16)
        &&& (self.nbits == 16 ==> self.s == 1)
        &&& (self.s == 2 ==> self.nbits == 8 && self.cx0 % 2 == 0 && self.cy0 % 2 == 0)
        &&& 0 <= self.cx0 < self.w
        &&& 0 <= self.cy0 < self.h
        &&& self.rows.len() <= 16
        &&& (self.s == 2 ==> self.rows.len() <= 15)
    }

    /// The topmost display row that sprite row `y` lands on.
    pub open spec fn rowy(self, y: int) -> int {
        (self.cy0 + y * self.s) % self.h
    }

    /// Whether sprite row `y` is rendered at all under clipping.
    pub open spec fn row_drawn(self, y: int) -> bool {
        !self.clip || self.cy0 + y * self.s < self.h
    }

    /// Column `j` is toggled by sprite row `y`.
    pub open spec fn hits(self, y: int, j: int) -> bool {
        row_hit(self.rows[y], self.nbits, self.clip, self.cx0, self.s, self.w, j)
    }

    /// Pixel (`i`, `j`) is toggled by one of the first `k` sprite rows.
    pub open spec fn toggles_upto(self, k: int, i: int, j: int) -> bool {
        exists|y: int|
            0 <= y < k && self.row_drawn(y) && #[trigger] self.rowy(y) <= i < self.rowy(y) + self.s
                && self.hits(y, j)
    }

    /// Pixel (`i`, `j`) is toggled by the draw.
    pub open spec fn toggles(self, i: int, j: int) -> bool {
        self.toggles_upto(self.rows.len() as int, i, j)
    }

    /// The grid after the draw: every targeted pixel flipped.
    pub open spec fn grid_after(self) -> Seq<Seq<bool>> {
        Seq::new(
            self.h as nat,
            |i: int| Seq::new(self.w as nat, |j: int| self.g0[i][j] != self.toggles(i, j)),
        )
    }

    /// Sprite row `y` clears some previously lit pixel.
    pub open spec fn row_coll(self, y: int) -> bool {
        row_collides(
            self.g0,
            self.rows[y],
            self.nbits,
            self.clip,
            self.cx0,
            self.s,
            self.w,
            self.rowy(y),
        )
    }

    /// How many of the first `k` rendered sprite rows collide.
    pub open spec fn coll_count(self, k: int) -> int
        decreases k,
    {
        if k <= 0 {
            0
        } else {
            self.coll_count(k - 1) + if self.row_drawn(k - 1) && self.row_coll(k - 1) {
                1int
            } else {
                0int
            }
        }
    }

    /// Only the 16 by 16 draw counts the rows that clipping cut off at
    /// the bottom edge as collisions; a byte-row draw counts nothing
    /// for them, and without clipping nothing is cut at all.
    pub open spec fn penalty(self) -> int {
        if self.nbits == 16 && self.clip && (self.h - self.cy0) % self.s == 0 && (self.h
            - self.cy0) / self.s < self.rows.len() {
            self.rows.len() - (self.h - self.cy0) / self.s
        } else {
            0
        }
    }

    /// The number the draw reports: the rows in which a lit pixel was
    /// cleared, plus, for a 16 by 16 draw alone, the rows the bottom
    /// edge cut off.
    pub open spec fn count(self) -> int {
        self.coll_count(self.rows.len() as int) + self.penalty()
    }
}

/// Sprite bytes as left-aligned row words.
pub open spec fn byte_rows(sprite: Seq<u8>) -> Seq<u16> {
    Seq::new(sprite.len(), |i: int| (sprite[i] * 256) as u16)
}

/// Thirty-two sprite bytes as sixteen big-endian row words.
pub open spec fn words16(sprite: Seq<u8>) -> Seq<u16> {
    Seq::new(16, |i: int| (sprite[2 * i] * 256 + sprite[2 * i + 1]) as u16)
}

/// The draw that a sprite of raw bytes at raw coordinates performs on a
/// display: a 32-byte sprite in hires mode is a 16 by 16 draw; otherwise
/// the rows are bytes, doubled to 2 by 2 blocks in lores emulation.
pub open spec fn sprite_draw_of(d: DisplayModel, sx: int, sy: int, sprite: Seq<u8>) -> SpriteDraw {
    if sprite.len() == 32 && !d.half_resolution {
        SpriteDraw {
            g0: d.grid,
            w: d.width,
            h: d.height,
            clip: d.clip_sprites,
            s: 1,
            cx0: sx % d.width,
            cy0: sy % d.height,
            rows: words16(sprite),
            nbits: 16,
        }
    } else {
        let s = if d.half_resolution {
            2int
        } else {
            1int
        };
        SpriteDraw {
            g0: d.grid,
            w: d.width,
            h: d.height,
            clip: d.clip_sprites,
            s: s,
            cx0: (sx * s) % d.width,
            cy0: (sy * s) % d.height,
            rows: byte_rows(sprite),
            nbits: 8,
        }
    }
}

/// The display and the reported collision count after drawing a sprite.
pub open spec fn draw_model(d: DisplayModel, sx: int, sy: int, sprite: Seq<u8>) -> (
    DisplayModel,
    int,
) {
    let p = sprite_draw_of(d, sx, sy, sprite);
    (DisplayModel { grid: p.grid_after(), dirty: true, ..d }, p.count())
}

/// The display and the collision count after drawing a 16 by 16 sprite
/// given as sixteen row words.
pub open spec fn draw16_model(d: DisplayModel, sx: int, sy: int, words: Seq<u16>) -> (
    DisplayModel,
    int,
) {
    let p = SpriteDraw {
        g0: d.grid,
        w: d.width,
        h: d.height,
        clip: d.clip_sprites,
        s: 1,
        cx0: sx % d.width,
        cy0: sy % d.height,
        rows: words,
        nbits: 16,
    };
    (DisplayModel { grid: p.grid_after(), dirty: true, ..d }, p.count())
}

/// A remainder over a window of twice the divisor subtracts the divisor
/// at most once.
pub proof fn lemma_mod_window(c: int, m: int)
    requires
        1 <= m,
        0 <= c < 2 * m,
    ensures
        c % m == if c < m {
            c
        } else {
            c - m
        },
{
    if c < m {
        lemma_small_mod(c as nat, m as nat);
    } else {
        lemma_mod_sub_multiples_vanish(c, m);
        assert(-m + c == c - m);
        lemma_small_mod((c - m) as nat, m as nat);
    }
}

/// Where one window of `s` cells starting at `c0 + x * s`, wrapped into
/// `[0, m)`, lies: inside the row, aligned when `s` is 2, and one plain
/// subtraction tells its place.
pub proof fn lemma_window(c0: int, s: int, m: int, x: int)
    requires
        16 <= m,
        m % 2 == 0,
        0 <= c0 < m,
        s == 1 || s == 2,
        s == 2 ==> c0 % 2 == 0,
        0 <= x,
        (x + 1) * s <= m,
    ensures
        0 <= colx(c0, s, m, x),
        colx(c0, s, m, x) + s <= m,
        s == 2 ==> colx(c0, s, m, x) % 2 == 0,
        colx(c0, s, m, x) == if c0 + x * s < m {
            c0 + x * s
        } else {
            c0 + x * s - m
        },
{
    let c = c0 + x * s;
    assert(0 <= x * s && x * s <= m - s) by (nonlinear_arith)
        requires
            0 <= x,
            s >= 1,
            (x + 1) * s <= m,
    ;
    lemma_mod_window(c, m);
    if s == 2 {
        assert(x * s % 2 == 0) by (nonlinear_arith)
            requires
                s == 2,
                x >= 0,
        ;
    }
}

/// The windows of two different bits never overlap: the whole sprite
/// row spans at most one wrap of the display row.
pub proof fn lemma_windows_disjoint(c0: int, s: int, m: int, x1: int, x2: int)
    requires
        16 <= m,
        m % 2 == 0,
        0 <= c0 < m,
        s == 1 || s == 2,
        s == 2 ==> c0 % 2 == 0,
        0 <= x1 < x2,
        (x2 + 1) * s <= m,
    ensures
        colx(c0, s, m, x1) + s <= colx(c0, s, m, x2) || colx(c0, s, m, x2) + s <= colx(
            c0,
            s,
            m,
            x1,
        ),
{
    assert((x1 + 1) * s <= (x2 + 1) * s) by (nonlinear_arith)
        requires
            x1 < x2,
            s >= 1,
    ;
    lemma_window(c0, s, m, x1);
    lemma_window(c0, s, m, x2);
    assert(x2 * s - x1 * s == (x2 - x1) * s) by (nonlinear_arith);
    assert((x2 - x1) * s >= s) by (nonlinear_arith)
        requires
            x2 - x1 >= 1,
            s >= 1,
    ;
    assert((x2 + 1) * s == x2 * s + s) by (nonlinear_arith);
}

/// Extending the scanned prefix of a row word by one bit adds exactly
/// that bit's window.
pub proof fn lemma_row_hit_succ(word: u16, k: int, clip: bool, cx0: int, s: int, w: int, j: int)
    requires
        0 <= k,
    ensures
        row_hit_upto(word, k + 1, clip, cx0, s, w, j) == (row_hit_upto(word, k, clip, cx0, s, w, j)
            || (col_drawn(clip, cx0, s, w, k) && bit16(word, k) && colx(cx0, s, w, k) <= j < colx(
            cx0,
            s,
            w,
            k,
        ) + s)),
{
    if row_hit_upto(word, k + 1, clip, cx0, s, w, j) {
        let x = choose|x: int|
            0 <= x < k + 1 && col_drawn(clip, cx0, s, w, x) && bit16(word, x) && #[trigger] colx(
                cx0,
                s,
                w,
                x,
            ) <= j < colx(cx0, s, w, x) + s;
        if x < k {
            assert(row_hit_upto(word, k, clip, cx0, s, w, j));
        }
    }
}

/// Likewise for the collision test of a row word.
pub proof fn lemma_row_coll_succ(
    g: Seq<Seq<bool>>,
    word: u16,
    k: int,
    clip: bool,
    cx0: int,
    s: int,
    w: int,
    ry: int,
)
    requires
        0 <= k,
    ensures
        row_collides_upto(g, word, k + 1, clip, cx0, s, w, ry) == (row_collides_upto(
            g,
            word,
            k,
            clip,
            cx0,
            s,
            w,
            ry,
        ) || (col_drawn(clip, cx0, s, w, k) && bit16(word, k) && block_set(
            g,
            ry,
            colx(cx0, s, w, k),
            s,
        ))),
{
    if row_collides_upto(g, word, k + 1, clip, cx0, s, w, ry) {
        let x = choose|x: int|
            0 <= x < k + 1 && col_drawn(clip, cx0, s, w, x) && bit16(word, x) && block_set(
                g,
                ry,
                #[trigger] colx(cx0, s, w, x),
                s,
            );
        if x < k {
            assert(row_collides_upto(g, word, k, clip, cx0, s, w, ry));
        }
    }
}

/// Once clipping has cut the row at bit `k`, the later bits change
/// nothing: their columns would all fall past the right edge.
pub proof fn lemma_row_cutoff(
    g: Seq<Seq<bool>>,
    word: u16,
    nbits: int,
    k: int,
    clip: bool,
    cx0: int,
    s: int,
    w: int,
    ry: int,
)
    requires
        clip,
        0 <= k <= nbits,
        cx0 + k * s >= w,
        s >= 1,
    ensures
        forall|j: int| #[trigger]
            row_hit_upto(word, nbits, clip, cx0, s, w, j) == row_hit_upto(
                word,
                k,
                clip,
                cx0,
                s,
                w,
                j,
            ),
        row_collides_upto(g, word, nbits, clip, cx0, s, w, ry) == row_collides_upto(
            g,
            word,
            k,
            clip,
            cx0,
            s,
            w,
            ry,
        ),
{
    assert forall|x: int| k <= x implies cx0 + #[trigger] (x * s) >= w by {
        assert(x * s >= k * s) by (nonlinear_arith)
            requires
                x >= k,
                s >= 1,
        ;
    }
    assert forall|j: int| #[trigger]
        row_hit_upto(word, nbits, clip, cx0, s, w, j) == row_hit_upto(
            word,
            k,
            clip,
            cx0,
            s,
            w,
            j,
        ) by {
        if row_hit_upto(word, nbits, clip, cx0, s, w, j) {
            let x = choose|x: int|
                0 <= x < nbits && col_drawn(clip, cx0, s, w, x) && bit16(word, x)
                    && #[trigger] colx(cx0, s, w, x) <= j < colx(cx0, s, w, x) + s;
            assert(x < k);
            assert(row_hit_upto(word, k, clip, cx0, s, w, j));
        }
    }
    if row_collides_upto(g, word, nbits, clip, cx0, s, w, ry) {
        let x = choose|x: int|
            0 <= x < nbits && col_drawn(clip, cx0, s, w, x) && bit16(word, x) && block_set(
                g,
                ry,
                #[trigger] colx(cx0, s, w, x),
                s,
            );
        assert(x < k);
        assert(row_collides_upto(g, word, k, clip, cx0, s, w, ry));
    }
}

/// Extending the drawn prefix of a sprite by one row adds exactly that
/// row's band of pixels.
pub proof fn lemma_toggles_succ(p: SpriteDraw, k: int, i: int, j: int)
    requires
        0 <= k,
    ensures
        p.toggles_upto(k + 1, i, j) == (p.toggles_upto(k, i, j) || (p.row_drawn(k) && p.rowy(k)
            <= i < p.rowy(k) + p.s && p.hits(k, j))),
{
    if p.toggles_upto(k + 1, i, j) {
        let y = choose|y: int|
            0 <= y < k + 1 && p.row_drawn(y) && #[trigger] p.rowy(y) <= i < p.rowy(y) + p.s
                && p.hits(y, j);
        if y < k {
            assert(p.toggles_upto(k, i, j));
        }
    }
}

/// Rows that clipping drops leave the pixels alone.
pub proof fn lemma_toggles_cutoff(p: SpriteDraw, k: int, i: int, j: int)
    requires
        0 <= k <= p.rows.len(),
        forall|y: int| k <= y < p.rows.len() ==> !p.row_drawn(y),
    ensures
        p.toggles(i, j) == p.toggles_upto(k, i, j),
{
    if p.toggles(i, j) {
        let y = choose|y: int|
            0 <= y < p.rows.len() && p.row_drawn(y) && #[trigger] p.rowy(y) <= i < p.rowy(y) + p.s
                && p.hits(y, j);
        assert(y < k);
        assert(p.toggles_upto(k, i, j));
    }
}

/// Whether a row collides depends only on the pixels of its own band:
/// two grids that agree there agree on the test.
pub proof fn lemma_row_coll_congruence(
    g1: Seq<Seq<bool>>,
    g2: Seq<Seq<bool>>,
    word: u16,
    nbits: int,
    clip: bool,
    cx0: int,
    s: int,
    w: int,
    ry: int,
)
    requires
        forall|a: int, b: int| ry <= a < ry + s && 0 <= b < w ==> g1[a][b] == g2[a][b],
        forall|x: int|
            0 <= x < nbits ==> 0 <= #[trigger] colx(cx0, s, w, x) && colx(cx0, s, w, x) + s <= w,
        s == 1 || s == 2,
    ensures
        row_collides_upto(g1, word, nbits, clip, cx0, s, w, ry) == row_collides_upto(
            g2,
            word,
            nbits,
            clip,
            cx0,
            s,
            w,
            ry,
        ),
{
    if row_collides_upto(g1, word, nbits, clip, cx0, s, w, ry) {
        let x = choose|x: int|
            0 <= x < nbits && col_drawn(clip, cx0, s, w, x) && bit16(word, x) && block_set(
                g1,
                ry,
                #[trigger] colx(cx0, s, w, x),
                s,
            );
        assert(block_set(g2, ry, colx(cx0, s, w, x), s));
        assert(row_collides_upto(g2, word, nbits, clip, cx0, s, w, ry));
    }
    if row_collides_upto(g2, word, nbits, clip, cx0, s, w, ry) {
        let x = choose|x: int|
            0 <= x < nbits && col_drawn(clip, cx0, s, w, x) && bit16(word, x) && block_set(
                g2,
                ry,
                #[trigger] colx(cx0, s, w, x),
                s,
            );
        assert(block_set(g1, ry, colx(cx0, s, w, x), s));
        assert(row_collides_upto(g1, word, nbits, clip, cx0, s, w, ry));
    }
}

/// Rows that clipping drops do not add to the colliding-row count.
pub proof fn lemma_coll_count_stable(p: SpriteDraw, k: int, n: int)
    requires
        0 <= k <= n,
        forall|y: int| k <= y < n ==> !p.row_drawn(y),
    ensures
        p.coll_count(n) == p.coll_count(k),
    decreases n - k,
{
    if n > k {
        lemma_coll_count_stable(p, k, n - 1);
    }
}

} // verus!

verus! {

/// The colliding-row count never exceeds the number of rows scanned.
pub proof fn lemma_coll_count_bound(p: SpriteDraw, k: int)
    requires
        0 <= k,
    ensures
        0 <= p.coll_count(k) <= k,
    decreases k,
{
    if k > 0 {
        lemma_coll_count_bound(p, k - 1);
    }
}


} // verus!

verus! {

/// A remainder by an even modulus keeps the parity of an even number.
pub proof fn lemma_mod_parity(c: int, m: int)
    requires
        m > 0,
        m % 2 == 0,
        c % 2 == 0,
    ensures
        (c % m) % 2 == 0,
{
    lemma_fundamental_div_mod(c, m);
    lemma_fundamental_div_mod(m, 2);
    let q = c / m;
    let h = m / 2;
    assert(m * q == 2 * (h * q)) by (nonlinear_arith)
        requires
            m == 2 * h,
    ;
    vstd::arithmetic::div_mod::lemma_mod_multiples_basic(h * q, 2);
    assert(2 * (h * q) == (h * q) * 2);
    assert(c % m == c - m * q);
}

} // verus!

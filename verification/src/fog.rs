//! Fog of war: a bit array telling, for each tile of the scene, whether it is
//! hidden from players.
//!
//! Each row of the grid takes the smallest number of `u32` words that hold a
//! bit per tile, `ceil(w / 32)`, and the rows follow one another. Tile
//! `(x, y)` is bit `x % 32` of word `ceil(w / 32) * y + x / 32`. A set bit is
//! a clear tile, an unset bit a hidden one.

use vstd::prelude::*;
use vstd::arithmetic::div_mod::lemma_fundamental_div_mod_converse;

use crate::comms::SceneEvent;

verus! {

/// Words per row for a grid `w` tiles wide.
pub open spec fn row_ints_spec(w: u32) -> int {
    (w as int + 31) / 32
}

/// The words of a grid `w` by `h` can be counted in a `u32`.
pub open spec fn dims_fit(w: u32, h: u32) -> bool {
    row_ints_spec(w) * h <= u32::MAX
}

/// Bit `b` of `word` is set.
pub open spec fn bit_of(word: u32, b: u32) -> bool {
    word & (1u32 << b) != 0
}

/// Byte `k` (0 the most significant) of `word` in big-endian order.
pub open spec fn be_byte(word: u32, k: int) -> u8 {
    if k == 0 {
        (word >> 24u32) as u8
    } else if k == 1 {
        (word >> 16u32) as u8
    } else if k == 2 {
        (word >> 8u32) as u8
    } else {
        word as u8
    }
}

/// The word whose big-endian bytes are `a`, `b`, `c`, `d`.
pub open spec fn be_word(a: u8, b: u8, c: u8, d: u8) -> u32 {
    ((a as u32) << 24u32) | ((b as u32) << 16u32) | ((c as u32) << 8u32) | (d as u32)
}

/// The words read from `bytes` four at a time; a shorter tail is ignored.
pub open spec fn words_from_bytes(bytes: Seq<u8>) -> Seq<u32> {
    Seq::new(
        (bytes.len() / 4) as nat,
        |i: int| be_word(bytes[4 * i], bytes[4 * i + 1], bytes[4 * i + 2], bytes[4 * i + 3]),
    )
}

/// The bytes of `words`, each word in big-endian order.
pub open spec fn bytes_of_words(words: Seq<u32>) -> Seq<u8> {
    Seq::new(4 * words.len(), |i: int| be_byte(words[i / 4], i % 4))
}

/// Number of set bits among the lowest `n` bits of `word`.
pub open spec fn ones_below(word: u32, n: nat) -> nat
    decreases n,
{
    if n == 0 {
        0
    } else {
        ones_below(word, (n - 1) as nat) + if bit_of(word, (n - 1) as u32) {
            1nat
        } else {
            0nat
        }
    }
}

/// Number of set bits of `word`.
pub open spec fn popcount(word: u32) -> nat {
    ones_below(word, 32)
}

/// Number of set bits of all the words.
pub open spec fn total_ones(words: Seq<u32>) -> nat
    decreases words.len(),
{
    if words.len() == 0 {
        0
    } else {
        total_ones(words.drop_last()) + popcount(words.last())
    }
}

/// `word` with bit `b` set.
pub open spec fn with_bit(word: u32, b: u32) -> u32 {
    word | (1u32 << b)
}

/// `word` with bit `b` cleared.
pub open spec fn without_bit(word: u32, b: u32) -> u32 {
    word & !(1u32 << b)
}

#[derive(Clone, Debug)]
pub struct Fog {
    pub active: bool,
    pub w: u32,
    pub h: u32,
    /// Number of revealed tiles.
    pub n_revealed: u32,
    /// The words of the bit array.
    pub fog: Vec<u32>,
}

/// A word whose lowest `n` bits are set, all of them when `n` is 32 or
/// more, none when `n` is 0 or less.
pub open spec fn low_mask(n: int) -> u32 {
    if n >= 32 {
        0xffff_ffffu32
    } else if n <= 0 {
        0u32
    } else {
        ((1u32 << (n as u32)) - 1u32) as u32
    }
}

/// The smaller of two widths.
pub open spec fn min_width(a: u32, b: u32) -> int {
    if a < b {
        a as int
    } else {
        b as int
    }
}

/// The words of a `w` by `h` grid after a resize from `old`: a word whose
/// row and first tile lie on the old grid keeps the bits of the tiles that
/// lie on both grids, and every other bit is zero (hidden).
pub open spec fn resized_words(old: Fog, w: u32, h: u32) -> Seq<u32> {
    let r = row_ints_spec(w);
    Seq::new(
        (r * h) as nat,
        |i: int|
            if i / r < old.h && 32 * (i % r) < old.w {
                old.words()[row_ints_spec(old.w) * (i / r) + i % r] & low_mask(
                    min_width(w, old.w) - 32 * (i % r),
                )
            } else {
                0u32
            },
    )
}

impl Fog {
    pub const BITS: u32 = 32;

    /// The words of the bit array.
    pub open spec fn words(&self) -> Seq<u32> {
        self.fog@
    }

    /// The index of the word that holds tile `(x, y)`.
    pub open spec fn index_of(&self, x: u32, y: u32) -> int {
        row_ints_spec(self.w) * y + x / 32
    }

    pub open spec fn on_map_spec(&self, x: u32, y: u32) -> bool {
        x < self.w && y < self.h
    }

    /// A tile is hidden when it lies off the map or its bit is unset. A tile
    /// whose word is missing from the array counts as clear.
    pub open spec fn occluded_spec(&self, x: u32, y: u32) -> bool {
        if !self.on_map_spec(x, y) {
            true
        } else if self.index_of(x, y) < self.words().len() {
            !bit_of(self.words()[self.index_of(x, y)], x % 32)
        } else {
            false
        }
    }

    /// The index of an on-map tile can be computed in a `u32`.
    pub open spec fn index_fits(&self, x: u32, y: u32) -> bool {
        self.on_map_spec(x, y) ==> self.index_of(x, y) <= u32::MAX
    }

    /// The array holds exactly one word for each word of the grid, and the
    /// count of revealed tiles is the number of set bits.
    pub open spec fn well_formed(&self) -> bool {
        &&& dims_fit(self.w, self.h)
        &&& self.words().len() == row_ints_spec(self.w) * self.h
        &&& self.n_revealed == total_ones(self.words())
    }

    /// A `w` by `h` fog, inactive, with every tile hidden.
    pub fn new(w: u32, h: u32) -> (f: Fog)
        requires
            dims_fit(w, h),
        ensures
            !f.active,
            f.w == w && f.h == h,
            f.n_revealed == 0,
            f.words() == Seq::new((row_ints_spec(w) * h) as nat, |i: int| 0u32),
            f.well_formed(),
            edges_clear(f),
    {
        let fog = Fog::make_fog(w, h);
        proof {
            lemma_total_ones_zero(fog@);
            assert forall|b: u32| b < 32 implies !#[trigger] bit_of(0u32, b) by {
                assert(0u32 & (1u32 << b) == 0) by (bit_vector);
            }
            if w % 32 != 0 {
                assert forall|y: u32, b: u32| y < h && w % 32 <= b < 32 implies !#[trigger] bit_of(
                    fog@[row_ints_spec(w) * y + row_ints_spec(w) - 1],
                    b,
                ) by {
                    let r = row_ints_spec(w);
                    assert(r * y + r <= r * h) by (nonlinear_arith)
                        requires
                            y < h,
                            r >= 0,
                    ;
                    assert(0 <= r * y) by (nonlinear_arith)
                        requires
                            y >= 0,
                            r >= 0,
                    ;
                    assert(r >= 1);
                }
            }
        }
        Fog { active: false, w, h, n_revealed: 0, fog }
    }

    /// The fog as bytes, each word in big-endian order.
    pub fn bytes(&self) -> (b: Vec<u8>)
        ensures
            b@ == bytes_of_words(self.words()),
    {
        let mut out: Vec<u8> = Vec::new();
        let mut i: usize = 0;
        while i < self.fog.len()
            invariant
                0 <= i <= self.fog@.len(),
                out@.len() == 4 * i,
                forall|j: int| 0 <= j < 4 * i ==> out@[j] == be_byte(self.fog@[j / 4], j % 4),
            decreases self.fog@.len() - i,
        {
            let word = self.fog[i];
            out.push((word >> 24) as u8);
            out.push((word >> 16) as u8);
            out.push((word >> 8) as u8);
            out.push(word as u8);
            assert forall|j: int| 0 <= j < 4 * (i + 1) implies out@[j] == be_byte(
                self.fog@[j / 4],
                j % 4,
            ) by {
                if j >= 4 * i {
                    assert(j / 4 == i);
                }
            }
            i += 1;
        }
        assert(out@ =~= bytes_of_words(self.words()));
        out
    }

    /// A fog read back from bytes. Every four bytes make a big-endian word,
    /// and the tiles revealed are counted from the set bits.
    pub fn from_bytes(w: u32, h: u32, bytes: &[u8]) -> (f: Fog)
        requires
            total_ones(words_from_bytes(bytes@)) <= u32::MAX,
        ensures
            !f.active,
            f.w == w && f.h == h,
            f.words() == words_from_bytes(bytes@),
            f.n_revealed == total_ones(words_from_bytes(bytes@)),
            dims_fit(w, h) && bytes@.len() == 4 * row_ints_spec(w) * h ==> f.well_formed(),
    {
        let len = bytes.len();
        let n = len / 4;
        let ghost target = words_from_bytes(bytes@);
        let mut fog: Vec<u32> = Vec::new();
        let mut i: usize = 0;
        while i < n
            invariant
                n == bytes@.len() / 4,
                len == bytes@.len(),
                n == len / 4,
                target == words_from_bytes(bytes@),
                0 <= i <= n,
                fog@ == target.take(i as int),
            decreases n - i,
        {
            assert(4 * i + 4 <= bytes.len());
            let base: usize = 4 * i;
            let a = bytes[base];
            let b = bytes[base + 1];
            let c = bytes[base + 2];
            let d = bytes[base + 3];
            let word = ((a as u32) << 24) | ((b as u32) << 16) | ((c as u32) << 8) | (d as u32);
            fog.push(word);
            assert(fog@ =~= target.take(i + 1));
            i += 1;
        }
        assert(fog@ =~= target);
        let n_revealed = count_revealed(&fog);
        proof {
            let k = row_ints_spec(w) * h;
            if bytes@.len() == 4 * row_ints_spec(w) * h {
                assert(4 * row_ints_spec(w) * h == 4 * k) by (nonlinear_arith)
                    requires
                        k == row_ints_spec(w) * h,
                ;
                assert((4 * k) / 4 == k) by (nonlinear_arith);
            }
        }
        Fog { active: false, w, h, n_revealed, fog }
    }

    /// Words per row for a grid `w` tiles wide.
    pub fn row_ints(w: u32) -> (n: u32)
        ensures
            n == row_ints_spec(w),
    {
        w / 32 + if w % 32 == 0 {
            0
        } else {
            1
        }
    }

    /// All hidden words for a `w` by `h` grid.
    pub fn make_fog(w: u32, h: u32) -> (v: Vec<u32>)
        requires
            dims_fit(w, h),
        ensures
            v@ == Seq::new((row_ints_spec(w) * h) as nat, |i: int| 0u32),
    {
        let n = Fog::row_ints(w) * h;
        let v = vec![0u32; n as usize];
        assert(v@ =~= Seq::new((row_ints_spec(w) * h) as nat, |i: int| 0u32));
        v
    }

    pub fn row_len(&self) -> (n: u32)
        ensures
            n == row_ints_spec(self.w),
    {
        Fog::row_ints(self.w)
    }

    /// Index of the first word of row `y`.
    pub fn nth_row(&self, y: u32) -> (n: u32)
        requires
            row_ints_spec(self.w) * y <= u32::MAX,
        ensures
            n == row_ints_spec(self.w) * y,
    {
        self.row_len() * y
    }

    pub fn idx(&self, x: u32, y: u32) -> (i: usize)
        requires
            self.index_of(x, y) <= u32::MAX,
        ensures
            i == self.index_of(x, y),
    {
        proof {
            assert(0 <= row_ints_spec(self.w) * y <= self.index_of(x, y)) by (nonlinear_arith)
                requires
                    self.index_of(x, y) == row_ints_spec(self.w) * y + x / 32,
                    row_ints_spec(self.w) >= 0,
            ;
        }
        (self.nth_row(y) + x / Fog::BITS) as usize
    }

    pub fn on_map(&self, x: u32, y: u32) -> (b: bool)
        ensures
            b == self.on_map_spec(x, y),
    {
        x < self.w && y < self.h
    }

    /// Changes the size of the grid. Tiles on both the old and the new grid
    /// keep their state; new tiles are hidden, and no bit is kept for a
    /// column past the new width. The set bits are counted again, and that
    /// count must fit in a `u32`.
    pub fn resize(&mut self, w: u32, h: u32)
        requires
            dims_fit(w, h),
            total_ones(resized_words(*old(self), w, h)) <= u32::MAX,
            forall|x: u32, y: u32|
                x < w && y < h && #[trigger] old(self).on_map_spec(x, y) ==> old(self).index_of(x, y)
                    < old(self).words().len() && old(self).index_of(x, y) <= u32::MAX,
        ensures
            final(self).w == w && final(self).h == h,
            final(self).active == old(self).active,
            final(self).n_revealed == total_ones(final(self).words()),
            final(self).words() == resized_words(*old(self), w, h),
            final(self).well_formed(),
            edges_clear(*final(self)),
            final(self).n_revealed == revealed_tiles(*final(self)),
    {
        let r = Fog::row_ints(w);
        let old_r = self.row_len();
        let lim: u32 = if w < self.w {
            w
        } else {
            self.w
        };
        let ghost target = resized_words(*self, w, h);
        let mut new_fog = Fog::make_fog(w, h);
        let mut y: u32 = 0;
        while y < h
            invariant
                r == row_ints_spec(w),
                old_r == row_ints_spec(self.w),
                lim == min_width(w, self.w),
                dims_fit(w, h),
                target == resized_words(*self, w, h),
                0 <= y <= h,
                new_fog@.len() == r * h,
                forall|i: int| 0 <= i < r * y ==> new_fog@[i] == target[i],
                forall|i: int| r * y <= i < r * h ==> new_fog@[i] == 0,
                forall|x: u32, yy: u32|
                    x < w && yy < h && #[trigger] self.on_map_spec(x, yy) ==> self.index_of(x, yy)
                        < self.words().len() && self.index_of(x, yy) <= u32::MAX,
            decreases h - y,
        {
            proof {
                assert(r * y + r <= r * h) by (nonlinear_arith)
                    requires
                        y < h,
                        r >= 0,
                ;
                assert(r * (y + 1) == r * y + r) by (nonlinear_arith);
            }
            let mut k: u32 = 0;
            while k < r
                invariant
                    r == row_ints_spec(w),
                    old_r == row_ints_spec(self.w),
                    lim == min_width(w, self.w),
                    dims_fit(w, h),
                    target == resized_words(*self, w, h),
                    0 <= y < h,
                    0 <= k <= r,
                    r * y + r <= r * h,
                    new_fog@.len() == r * h,
                    forall|i: int| 0 <= i < r * y + k ==> new_fog@[i] == target[i],
                    forall|i: int| r * y + k <= i < r * h ==> new_fog@[i] == 0,
                    forall|x: u32, yy: u32|
                        x < w && yy < h && #[trigger] self.on_map_spec(x, yy) ==> self.index_of(x, yy)
                            < self.words().len() && self.index_of(x, yy) <= u32::MAX,
                decreases r - k,
            {
                let pos = r * y + k;
                proof {
                    lemma_fundamental_div_mod_converse(pos as int, r as int, y as int, k as int);
                }
                if y < self.h && (k as u64) * 32 < self.w as u64 {
                    let x: u32 = k * 32;
                    proof {
                        assert(x < w) by {
                            assert(k < (w as int + 31) / 32);
                        }
                        assert(self.on_map_spec(x, y));
                        assert(x / 32 == k);
                    }
                    let old_idx = self.idx(x, y);
                    let word = self.fog[old_idx];
                    let base: u64 = (k as u64) * 32;
                    let n: u32 = if (lim as u64) <= base {
                        0
                    } else if (lim as u64) - base >= 32 {
                        32
                    } else {
                        ((lim as u64) - base) as u32
                    };
                    let mask = low_mask_exec(n);
                    assert(mask == low_mask(min_width(w, self.w) - 32 * k));
                    new_fog.set(pos as usize, word & mask);
                } else {
                    new_fog.set(pos as usize, 0);
                }
                k += 1;
            }
            y += 1;
        }
        proof {
            assert(r * y == r * h);
            assert(new_fog@ =~= target);
        }
        let n_revealed = count_revealed(&new_fog);
        self.w = w;
        self.h = h;
        self.fog = new_fog;
        self.n_revealed = n_revealed;
        proof {
            lemma_resized_edges(*old(self), *self);
            law_revealed_counts_clear_tiles(*self);
        }
    }

    /// The words after tile `(x, y)` is revealed.
    pub open spec fn reveal_words(&self, x: u32, y: u32) -> Seq<u32> {
        self.words().update(
            self.index_of(x, y),
            with_bit(self.words()[self.index_of(x, y)], x % 32),
        )
    }

    /// The words after tile `(x, y)` is hidden. A tile whose word is
    /// missing from the array has no bit to clear.
    pub open spec fn occlude_words(&self, x: u32, y: u32) -> Seq<u32> {
        if self.index_of(x, y) < self.words().len() {
            self.words().update(
                self.index_of(x, y),
                without_bit(self.words()[self.index_of(x, y)], x % 32),
            )
        } else {
            self.words()
        }
    }

    /// Reveals tile `(x, y)`. Nothing happens to a tile off the map or one
    /// already clear.
    pub fn reveal_tile(&mut self, x: u32, y: u32) -> (e: Option<SceneEvent>)
        requires
            old(self).index_fits(x, y),
            old(self).on_map_spec(x, y) && old(self).occluded_spec(x, y) ==> old(self).n_revealed
                < u32::MAX,
        ensures
            if old(self).on_map_spec(x, y) && old(self).occluded_spec(x, y) {
                &&& final(self).words() == old(self).reveal_words(x, y)
                &&& final(self).n_revealed == old(self).n_revealed + 1
                &&& final(self).w == old(self).w && final(self).h == old(self).h
                &&& final(self).active == old(self).active
                &&& e == Some(SceneEvent::FogReveal(true, x, y))
            } else {
                &&& *final(self) == *old(self)
                &&& e is None
            },
            old(self).well_formed() ==> final(self).well_formed(),
            old(self).well_formed() && edges_clear(*old(self)) ==> edges_clear(*final(self)),
    {
        if !self.on_map(x, y) {
            return None;
        }
        if !self.occluded(x, y) {
            return None;
        }
        proof {
            if self.well_formed() {
                lemma_reveal_count(*self, x, y);
                lemma_index_in_array(*self, x, y);
                let i = self.index_of(x, y);
                assert forall|b: u32| b < 32 && b != x % 32 implies bit_of(
                    with_bit(self.words()[i], x % 32),
                    b,
                ) == bit_of(self.words()[i], b) by {
                    lemma_bits(self.words()[i], x % 32, b);
                }
            }
        }
        let ghost before = *self;
        self.n_revealed += 1;
        let index = self.idx(x, y);
        if index < self.fog.len() {
            let word = self.fog[index];
            self.fog.set(index, word | (1u32 << (x % Fog::BITS)));
        }
        proof {
            if before.well_formed() && edges_clear(before) {
                lemma_edit_keeps_edges(
                    before,
                    *self,
                    x,
                    y,
                    with_bit(before.words()[before.index_of(x, y)], x % 32),
                );
            }
        }
        Some(SceneEvent::FogReveal(true, x, y))
    }

    /// Hides tile `(x, y)`. Nothing happens to a tile off the map or one
    /// already hidden.
    pub fn occlude(&mut self, x: u32, y: u32) -> (e: Option<SceneEvent>)
        requires
            old(self).index_fits(x, y),
            old(self).on_map_spec(x, y) && !old(self).occluded_spec(x, y) ==> old(self).n_revealed
                > 0,
        ensures
            if old(self).on_map_spec(x, y) && !old(self).occluded_spec(x, y) {
                &&& final(self).words() == old(self).occlude_words(x, y)
                &&& final(self).n_revealed == old(self).n_revealed - 1
                &&& final(self).w == old(self).w && final(self).h == old(self).h
                &&& final(self).active == old(self).active
                &&& e == Some(SceneEvent::FogOcclude(false, x, y))
            } else {
                &&& *final(self) == *old(self)
                &&& e is None
            },
            old(self).well_formed() ==> final(self).well_formed(),
            old(self).well_formed() && edges_clear(*old(self)) ==> edges_clear(*final(self)),
    {
        if !self.on_map(x, y) {
            return None;
        }
        if self.occluded(x, y) {
            return None;
        }
        proof {
            if self.well_formed() {
                lemma_occlude_count(*self, x, y);
                lemma_index_in_array(*self, x, y);
                let i = self.index_of(x, y);
                assert forall|b: u32| b < 32 && b != x % 32 implies bit_of(
                    without_bit(self.words()[i], x % 32),
                    b,
                ) == bit_of(self.words()[i], b) by {
                    lemma_bits(self.words()[i], x % 32, b);
                }
            }
        }
        let ghost before = *self;
        self.n_revealed -= 1;
        let index = self.idx(x, y);
        if index < self.fog.len() {
            let word = self.fog[index];
            let new_word = word & !(1u32 << (x % Fog::BITS));
            assert(new_word == without_bit(word, x % 32));
            self.fog.set(index, new_word);
        }
        assert(self.fog@ =~= old(self).occlude_words(x, y));
        proof {
            if before.well_formed() && edges_clear(before) {
                lemma_edit_keeps_edges(
                    before,
                    *self,
                    x,
                    y,
                    without_bit(before.words()[before.index_of(x, y)], x % 32),
                );
            }
        }
        Some(SceneEvent::FogOcclude(false, x, y))
    }

    /// Hides or reveals tile `(x, y)`.
    pub fn set(&mut self, x: u32, y: u32, occluded: bool) -> (e: Option<SceneEvent>)
        requires
            old(self).index_fits(x, y),
            occluded && old(self).on_map_spec(x, y) && !old(self).occluded_spec(x, y) ==> old(
                self,
            ).n_revealed > 0,
            !occluded && old(self).on_map_spec(x, y) && old(self).occluded_spec(x, y) ==> old(
                self,
            ).n_revealed < u32::MAX,
        ensures
            if old(self).on_map_spec(x, y) && old(self).occluded_spec(x, y) != occluded {
                &&& final(self).words() == (if occluded {
                    old(self).occlude_words(x, y)
                } else {
                    old(self).reveal_words(x, y)
                })
                &&& final(self).n_revealed == (if occluded {
                    old(self).n_revealed - 1
                } else {
                    old(self).n_revealed + 1
                })
                &&& final(self).w == old(self).w && final(self).h == old(self).h
                &&& final(self).active == old(self).active
                &&& e == (if occluded {
                    Some(SceneEvent::FogOcclude(false, x, y))
                } else {
                    Some(SceneEvent::FogReveal(true, x, y))
                })
            } else {
                &&& *final(self) == *old(self)
                &&& e is None
            },
            old(self).well_formed() ==> final(self).well_formed(),
            old(self).well_formed() && edges_clear(*old(self)) ==> edges_clear(*final(self)),
    {
        if occluded {
            self.occlude(x, y)
        } else {
            self.reveal_tile(x, y)
        }
    }

    /// Turns the fog on or off; nothing happens when it is already so.
    pub fn set_active(&mut self, active: bool) -> (e: Option<SceneEvent>)
        ensures
            old(self).active == active ==> *final(self) == *old(self) && e is None,
            old(self).active != active ==> {
                &&& *final(self) == Fog { active, ..*old(self) }
                &&& e == Some(SceneEvent::FogActive(old(self).active, active))
            },
    {
        if self.active == active {
            None
        } else {
            let old_active = self.active;
            self.active = active;
            Some(SceneEvent::FogActive(old_active, self.active))
        }
    }

    /// A clear tile nearest to `(x, y)`, distance counted in steps to one
    /// of the eight neighbouring tiles; `(x, y)` itself when the fog is
    /// inactive or no tile is clear.
    pub fn nearest_clear(&self, x: u32, y: u32) -> (p: (u32, u32))
        requires
            self.active ==> self.w > 0 && self.h > 0,
            forall|a: u32, b: u32| #[trigger] self.index_fits(a, b),
        ensures
            !self.active ==> p == (x, y),
            self.active && !self.some_clear() ==> p == (x, y),
            self.active && self.some_clear() ==> {
                &&& !self.occluded_spec(p.0, p.1)
                &&& forall|a: u32, b: u32|
                    !#[trigger] self.occluded_spec(a, b) ==> cheb(p, (x, y)) <= cheb((a, b), (x, y))
            },
            self.active && !self.occluded_spec(x, y) ==> p == (x, y),
    {
        if !self.active {
            return (x, y);
        }
        let mut found = false;
        let mut best: (u32, u32) = (x, y);
        let mut best_d: u32 = 0;
        let mut a: u32 = 0;
        while a < self.w
            invariant
                self.active,
                a <= self.w,
                forall|c: u32, d: u32| #[trigger] self.index_fits(c, d),
                found ==> !self.occluded_spec(best.0, best.1) && best_d == cheb(best, (x, y)),
                forall|c: u32, d: u32|
                    c < a && !#[trigger] self.occluded_spec(c, d) ==> found && best_d <= cheb(
                        (c, d),
                        (x, y),
                    ),
            decreases self.w - a,
        {
            let mut b: u32 = 0;
            while b < self.h
                invariant
                    self.active,
                    a < self.w,
                    b <= self.h,
                    forall|c: u32, d: u32| #[trigger] self.index_fits(c, d),
                    found ==> !self.occluded_spec(best.0, best.1) && best_d == cheb(best, (x, y)),
                    forall|c: u32, d: u32|
                        c < a && !#[trigger] self.occluded_spec(c, d) ==> found && best_d <= cheb(
                            (c, d),
                            (x, y),
                        ),
                    forall|d: u32|
                        d < b && !#[trigger] self.occluded_spec(a, d) ==> found && best_d <= cheb(
                            (a, d),
                            (x, y),
                        ),
                decreases self.h - b,
            {
                if !self.occluded(a, b) {
                    let d = cheb_exec((a, b), (x, y));
                    if !found || d < best_d {
                        found = true;
                        best = (a, b);
                        best_d = d;
                    }
                }
                b += 1;
            }
            proof {
                assert forall|d: u32| !#[trigger] self.occluded_spec(a, d) implies found && best_d
                    <= cheb((a, d), (x, y)) by {
                    if d >= self.h {
                        assert(!self.on_map_spec(a, d));
                    }
                }
            }
            a += 1;
        }
        proof {
            assert forall|c: u32, d: u32| !#[trigger] self.occluded_spec(c, d) implies found && best_d
                <= cheb((c, d), (x, y)) by {
                if c >= self.w {
                    assert(!self.on_map_spec(c, d));
                }
            }
            if self.some_clear() {
                let (c, d) = choose|c: u32, d: u32| !self.occluded_spec(c, d);
                assert(!self.occluded_spec(c, d));
            }
            if !self.occluded_spec(x, y) {
                assert(best_d <= cheb((x, y), (x, y)));
            }
        }
        if found {
            best
        } else {
            (x, y)
        }
    }

    /// Some tile is clear.
    pub open spec fn some_clear(&self) -> bool {
        exists|a: u32, b: u32| !#[trigger] self.occluded_spec(a, b)
    }

    /// Whether tile `(x, y)` is hidden. Tiles off the map are.
    pub fn occluded(&self, x: u32, y: u32) -> (b: bool)
        requires
            self.index_fits(x, y),
        ensures
            b == self.occluded_spec(x, y),
    {
        if !self.on_map(x, y) {
            return true;
        }
        let i = self.idx(x, y);
        if i < self.fog.len() {
            self.fog[i] & (1u32 << (x % Fog::BITS)) == 0
        } else {
            false
        }
    }

    /// Whether the fog is active and every tile with `x0 <= x < x1` and
    /// `y0 <= y < y1` is hidden. The caller works out the tile bounds of a
    /// rectangle: the floor of its corner and the end of its extent, each
    /// at least zero.
    pub fn rect_occluded(&self, x0: u32, y0: u32, x1: u32, y1: u32) -> (b: bool)
        requires
            forall|x: u32, y: u32| #[trigger] self.index_fits(x, y),
        ensures
            b == (self.active && forall|x: u32, y: u32|
                x0 <= x < x1 && y0 <= y < y1 ==> #[trigger] self.occluded_spec(x, y)),
    {
        if !self.active {
            return false;
        }
        let mut x = x0;
        while x < x1
            invariant
                self.active,
                x0 <= x,
                forall|a: u32, b: u32| #[trigger] self.index_fits(a, b),
                forall|a: u32, b: u32|
                    x0 <= a < x && y0 <= b < y1 ==> #[trigger] self.occluded_spec(a, b),
            decreases x1 - x,
        {
            let mut y = y0;
            while y < y1
                invariant
                    self.active,
                    x0 <= x < x1,
                    y0 <= y,
                    forall|a: u32, b: u32| #[trigger] self.index_fits(a, b),
                    forall|a: u32, b: u32|
                        x0 <= a < x && y0 <= b < y1 ==> #[trigger] self.occluded_spec(a, b),
                    forall|b: u32| y0 <= b < y ==> #[trigger] self.occluded_spec(x, b),
                decreases y1 - y,
            {
                if !self.occluded(x, y) {
                    assert(!self.occluded_spec(x, y));
                    return false;
                }
                y += 1;
            }
            x += 1;
        }
        true
    }
}

/// How far apart two tiles are, in steps to one of the eight neighbouring
/// tiles: the larger of the two coordinate differences.
pub open spec fn cheb(p: (u32, u32), q: (u32, u32)) -> int {
    let dx = if p.0 >= q.0 {
        p.0 - q.0
    } else {
        q.0 - p.0
    };
    let dy = if p.1 >= q.1 {
        p.1 - q.1
    } else {
        q.1 - p.1
    };
    if dx >= dy {
        dx
    } else {
        dy
    }
}

fn cheb_exec(p: (u32, u32), q: (u32, u32)) -> (d: u32)
    ensures
        d == cheb(p, q),
{
    let dx = if p.0 >= q.0 {
        p.0 - q.0
    } else {
        q.0 - p.0
    };
    let dy = if p.1 >= q.1 {
        p.1 - q.1
    } else {
        q.1 - p.1
    };
    if dx >= dy {
        dx
    } else {
        dy
    }
}

/// Number of set bits of a word.
pub fn count_ones(word: u32) -> (n: u32)
    ensures
        n == popcount(word),
{
    let mut n: u32 = 0;
    let mut b: u32 = 0;
    while b < 32
        invariant
            0 <= b <= 32,
            n == ones_below(word, b as nat),
            n <= b,
        decreases 32 - b,
    {
        if word & (1u32 << b) != 0 {
            n += 1;
        }
        b += 1;
    }
    n
}


proof fn lemma_bits(word: u32, b: u32, c: u32)
    requires
        b < 32,
        c < 32,
    ensures
        bit_of(with_bit(word, b), b),
        !bit_of(without_bit(word, b), b),
        b != c ==> bit_of(with_bit(word, b), c) == bit_of(word, c),
        b != c ==> bit_of(without_bit(word, b), c) == bit_of(word, c),
        !bit_of(word, b) ==> without_bit(with_bit(word, b), b) == word,
        bit_of(word, b) ==> with_bit(without_bit(word, b), b) == word,
{
    assert(word | (1u32 << b) & (1u32 << b) != 0) by (bit_vector)
        requires
            b < 32,
    ;
    assert((word | (1u32 << b)) & (1u32 << b) != 0) by (bit_vector)
        requires
            b < 32,
    ;
    assert((word & !(1u32 << b)) & (1u32 << b) == 0) by (bit_vector)
        requires
            b < 32,
    ;
    assert(b != c ==> (((word | (1u32 << b)) & (1u32 << c) != 0) == (word & (1u32 << c) != 0)))
        by (bit_vector)
        requires
            b < 32,
            c < 32,
    ;
    assert(b != c ==> (((word & !(1u32 << b)) & (1u32 << c) != 0) == (word & (1u32 << c) != 0)))
        by (bit_vector)
        requires
            b < 32,
            c < 32,
    ;
    assert(word & (1u32 << b) == 0 ==> (word | (1u32 << b)) & !(1u32 << b) == word)
        by (bit_vector)
        requires
            b < 32,
    ;
    assert(word & (1u32 << b) != 0 ==> (word & !(1u32 << b)) | (1u32 << b) == word)
        by (bit_vector)
        requires
            b < 32,
    ;
}

/// Setting an unset bit adds one to the count of set bits below `n`, when
/// the bit lies below `n`.
proof fn lemma_ones_below_with(word: u32, b: u32, n: nat)
    requires
        b < 32,
        n <= 32,
        !bit_of(word, b),
    ensures
        ones_below(with_bit(word, b), n) == ones_below(word, n) + if b < n {
            1nat
        } else {
            0nat
        },
    decreases n,
{
    if n > 0 {
        lemma_ones_below_with(word, b, (n - 1) as nat);
        lemma_bits(word, b, (n - 1) as u32);
    }
}

/// Clearing a set bit takes one from the count of set bits below `n`, when
/// the bit lies below `n`.
proof fn lemma_ones_below_without(word: u32, b: u32, n: nat)
    requires
        b < 32,
        n <= 32,
        bit_of(word, b),
    ensures
        ones_below(without_bit(word, b), n) + (if b < n {
            1nat
        } else {
            0nat
        }) == ones_below(word, n),
    decreases n,
{
    if n > 0 {
        lemma_ones_below_without(word, b, (n - 1) as nat);
        lemma_bits(word, b, (n - 1) as u32);
    }
}

/// Replacing one word changes the count of set bits by the difference of
/// the two words' counts.
proof fn lemma_total_ones_update(s: Seq<u32>, i: int, v: u32)
    requires
        0 <= i < s.len(),
    ensures
        total_ones(s.update(i, v)) + popcount(s[i]) == total_ones(s) + popcount(v),
    decreases s.len(),
{
    let t = s.update(i, v);
    if i == s.len() - 1 {
        assert(t.drop_last() =~= s.drop_last());
    } else {
        assert(t.drop_last() =~= s.drop_last().update(i, v));
        lemma_total_ones_update(s.drop_last(), i, v);
    }
}

/// The word of an on-map tile of a well-formed fog is in the array.
proof fn lemma_index_in_array(f: Fog, x: u32, y: u32)
    requires
        f.well_formed(),
        f.on_map_spec(x, y),
    ensures
        0 <= f.index_of(x, y) < f.words().len(),
{
    let r = row_ints_spec(f.w);
    assert(x / 32 < r);
    assert(r * y + r <= r * f.h) by (nonlinear_arith)
        requires
            y < f.h,
            r >= 0,
    ;
    assert(0 <= r * y) by (nonlinear_arith)
        requires
            y >= 0,
            r >= 0,
    ;
}

/// Revealing a hidden on-map tile of a well-formed fog adds one set bit.
proof fn lemma_reveal_count(f: Fog, x: u32, y: u32)
    requires
        f.well_formed(),
        f.on_map_spec(x, y),
        f.occluded_spec(x, y),
    ensures
        total_ones(f.reveal_words(x, y)) == total_ones(f.words()) + 1,
{
    lemma_index_in_array(f, x, y);
    let i = f.index_of(x, y);
    lemma_ones_below_with(f.words()[i], x % 32, 32);
    lemma_total_ones_update(f.words(), i, with_bit(f.words()[i], x % 32));
}

/// Hiding a clear on-map tile of a well-formed fog takes one set bit away.
proof fn lemma_occlude_count(f: Fog, x: u32, y: u32)
    requires
        f.well_formed(),
        f.on_map_spec(x, y),
        !f.occluded_spec(x, y),
    ensures
        total_ones(f.occlude_words(x, y)) + 1 == total_ones(f.words()),
{
    lemma_index_in_array(f, x, y);
    let i = f.index_of(x, y);
    lemma_ones_below_without(f.words()[i], x % 32, 32);
    lemma_total_ones_update(f.words(), i, without_bit(f.words()[i], x % 32));
}

/// A zero word has no set bit below `n`.
proof fn lemma_ones_below_zero(n: nat)
    requires
        n <= 32,
    ensures
        ones_below(0u32, n) == 0,
    decreases n,
{
    if n > 0 {
        lemma_ones_below_zero((n - 1) as nat);
        let b = (n - 1) as u32;
        assert(0u32 & (1u32 << b) == 0) by (bit_vector);
    }
}

/// Words that are all zero have no set bit.
proof fn lemma_total_ones_zero(s: Seq<u32>)
    requires
        forall|i: int| 0 <= i < s.len() ==> s[i] == 0u32,
    ensures
        total_ones(s) == 0,
    decreases s.len(),
{
    if s.len() > 0 {
        lemma_total_ones_zero(s.drop_last());
        lemma_ones_below_zero(32);
    }
}

/// The number of set bits of the words, which must fit in a `u32`.
pub(crate) fn count_revealed(words: &Vec<u32>) -> (n: u32)
    requires
        total_ones(words@) <= u32::MAX,
    ensures
        n == total_ones(words@),
{
    let mut n: u32 = 0;
    let mut j: usize = 0;
    while j < words.len()
        invariant
            0 <= j <= words@.len(),
            total_ones(words@) <= u32::MAX,
            n == total_ones(words@.take(j as int)),
        decreases words@.len() - j,
    {
        proof {
            lemma_total_ones_prefix(words@, j + 1);
            lemma_total_ones_take_bound(words@, j + 1);
        }
        let ones = count_ones(words[j]);
        n = n + ones;
        j += 1;
    }
    assert(words@.take(words@.len() as int) =~= words@);
    n
}

/// A word whose lowest `n` bits are set.
fn low_mask_exec(n: u32) -> (m: u32)
    requires
        n <= 32,
    ensures
        m == low_mask(n as int),
{
    if n >= 32 {
        0xffff_ffff
    } else if n == 0 {
        0
    } else {
        assert(1u32 << n >= 1u32) by (bit_vector)
            requires
                n < 32,
        ;
        (1u32 << n) - 1
    }
}

/// Bit `c` survives a mask of the lowest `n` bits exactly when `c < n`.
proof fn lemma_low_mask_bit(word: u32, n: int, c: u32)
    requires
        c < 32,
    ensures
        bit_of(word & low_mask(n), c) == (c < n && bit_of(word, c)),
{
    if n >= 32 {
        assert(word & 0xffff_ffffu32 == word) by (bit_vector);
    } else if n <= 0 {
        assert((word & 0u32) & (1u32 << c) == 0) by (bit_vector);
    } else {
        let m = n as u32;
        assert(((word & (((1u32 << m) - 1u32) as u32)) & (1u32 << c) != 0) == (c < m && word & (1u32
            << c) != 0)) by (bit_vector)
            requires
                0 < m < 32,
                c < 32,
        ;
    }
}

/// Two tiles of the map that share a word are in the same row and differ
/// in their bit.
proof fn lemma_index_injective(f: Fog, x: u32, y: u32, x2: u32, y2: u32)
    requires
        f.on_map_spec(x, y),
        f.on_map_spec(x2, y2),
        f.index_of(x, y) == f.index_of(x2, y2),
    ensures
        y == y2,
        x / 32 == x2 / 32,
        (x != x2) ==> x % 32 != x2 % 32,
{
    let r = row_ints_spec(f.w);
    assert(x / 32 < r);
    assert(x2 / 32 < r);
    lemma_fundamental_div_mod_converse(f.index_of(x, y), r, y as int, (x / 32) as int);
    lemma_fundamental_div_mod_converse(f.index_of(x2, y2), r, y2 as int, (x2 / 32) as int);
}

/// A new fog hides every tile.
pub proof fn law_new_fog_hides_everything(f: Fog, x: u32, y: u32)
    requires
        f.words() == Seq::new((row_ints_spec(f.w) * f.h) as nat, |i: int| 0u32),
    ensures
        f.occluded_spec(x, y),
{
    if f.on_map_spec(x, y) {
        let r = row_ints_spec(f.w);
        assert(x / 32 < r);
        assert(r * y + r <= r * f.h) by (nonlinear_arith)
            requires
                y < f.h,
                r >= 0,
        ;
        assert(f.index_of(x, y) < f.words().len());
        assert(0u32 & (1u32 << (x % 32)) == 0) by (bit_vector);
    }
}

/// Revealing a hidden tile of the map clears that tile and leaves every
/// other tile as it was.
pub proof fn law_reveal_changes_one_tile(before: Fog, after: Fog, x: u32, y: u32, x2: u32, y2: u32)
    requires
        before.on_map_spec(x, y),
        before.occluded_spec(x, y),
        after.w == before.w,
        after.h == before.h,
        after.words() == before.reveal_words(x, y),
    ensures
        !after.occluded_spec(x, y),
        (x2 != x || y2 != y) ==> after.occluded_spec(x2, y2) == before.occluded_spec(x2, y2),
{
    let i = before.index_of(x, y);
    lemma_bits(before.words()[i], x % 32, x2 % 32);
    if (x2 != x || y2 != y) && before.on_map_spec(x2, y2) {
        let i2 = before.index_of(x2, y2);
        if i2 == i {
            lemma_index_injective(before, x, y, x2, y2);
        }
    }
}

/// Hiding a clear tile of the map hides that tile and leaves every other
/// tile as it was.
pub proof fn law_occlude_changes_one_tile(before: Fog, after: Fog, x: u32, y: u32, x2: u32, y2: u32)
    requires
        before.on_map_spec(x, y),
        !before.occluded_spec(x, y),
        before.index_of(x, y) < before.words().len(),
        after.w == before.w,
        after.h == before.h,
        after.words() == before.occlude_words(x, y),
    ensures
        after.occluded_spec(x, y),
        (x2 != x || y2 != y) ==> after.occluded_spec(x2, y2) == before.occluded_spec(x2, y2),
{
    let i = before.index_of(x, y);
    assert(i < before.words().len());
    assert(after.words().len() == before.words().len());
    lemma_bits(before.words()[i], x % 32, x2 % 32);
    assert(after.words()[i] == without_bit(before.words()[i], x % 32));
    if (x2 != x || y2 != y) && before.on_map_spec(x2, y2) {
        let i2 = before.index_of(x2, y2);
        if i2 == i {
            lemma_index_injective(before, x, y, x2, y2);
        }
    }
}

/// Hiding a tile again after revealing it gives back the words the fog had
/// before.
pub proof fn law_occlude_undoes_reveal(before: Fog, revealed: Fog, x: u32, y: u32)
    requires
        before.on_map_spec(x, y),
        before.occluded_spec(x, y),
        revealed.w == before.w,
        revealed.h == before.h,
        revealed.words() == before.reveal_words(x, y),
    ensures
        revealed.occlude_words(x, y) == before.words(),
{
    let i = before.index_of(x, y);
    lemma_bits(before.words()[i], x % 32, x % 32);
    assert(revealed.occlude_words(x, y) =~= before.words());
}

/// Revealing a tile again after hiding it gives back the words the fog had
/// before.
pub proof fn law_reveal_undoes_occlude(before: Fog, hidden: Fog, x: u32, y: u32)
    requires
        before.on_map_spec(x, y),
        !before.occluded_spec(x, y),
        before.index_of(x, y) < before.words().len(),
        hidden.w == before.w,
        hidden.h == before.h,
        hidden.words() == before.occlude_words(x, y),
    ensures
        hidden.reveal_words(x, y) == before.words(),
{
    let i = before.index_of(x, y);
    assert(i < before.words().len());
    lemma_bits(before.words()[i], x % 32, x % 32);
    assert(hidden.words()[i] == without_bit(before.words()[i], x % 32));
    assert(hidden.reveal_words(x, y) =~= before.words());
}

/// Reading back the bytes of a fog gives its words.
pub proof fn law_bytes_round_trip(words: Seq<u32>)
    ensures
        words_from_bytes(bytes_of_words(words)) == words,
{
    let bytes = bytes_of_words(words);
    assert forall|i: int| 0 <= i < words.len() implies #[trigger] words_from_bytes(bytes)[i]
        == words[i] by {
        let w = words[i];
        assert((4 * i) / 4 == i && (4 * i + 1) / 4 == i && (4 * i + 2) / 4 == i && (4 * i + 3) / 4
            == i);
        assert((4 * i) % 4 == 0 && (4 * i + 1) % 4 == 1 && (4 * i + 2) % 4 == 2 && (4 * i + 3) % 4
            == 3);
        assert(((((w >> 24u32) as u8) as u32) << 24u32) | ((((w >> 16u32) as u8) as u32) << 16u32)
            | ((((w >> 8u32) as u8) as u32) << 8u32) | ((w as u8) as u32) == w) by (bit_vector);
    }
    assert(words_from_bytes(bytes) =~= words);
}

/// Resizing keeps the state of every tile that lies on both the old and
/// the new grid, and hides every tile that only the new grid has.
pub proof fn law_resize_keeps_shared_tiles(before: Fog, after: Fog, x: u32, y: u32)
    requires
        dims_fit(after.w, after.h),
        after.words() == resized_words(before, after.w, after.h),
        forall|a: u32, b: u32|
            a < after.w && b < after.h && #[trigger] before.on_map_spec(a, b) ==> before.index_of(a, b)
                < before.words().len(),
        after.on_map_spec(x, y),
    ensures
        after.occluded_spec(x, y) == (if before.on_map_spec(x, y) {
            before.occluded_spec(x, y)
        } else {
            true
        }),
{
    let r = row_ints_spec(after.w);
    let i = after.index_of(x, y);
    let k = (x / 32) as int;
    assert(k < r);
    assert(r * y + r <= r * after.h) by (nonlinear_arith)
        requires
            y < after.h,
            r >= 0,
    ;
    lemma_fundamental_div_mod_converse(i, r, y as int, k);
    let c = x % 32;
    assert(x == 32 * k + c);
    if y < before.h && 32 * k < before.w {
        let ow = before.words()[row_ints_spec(before.w) * y + k];
        assert(after.words()[i] == ow & low_mask(min_width(after.w, before.w) - 32 * k));
        lemma_low_mask_bit(ow, min_width(after.w, before.w) - 32 * k, c);
        if before.on_map_spec(x, y) {
            assert(before.index_of(x, y) == row_ints_spec(before.w) * y + k);
        }
    } else {
        assert(after.words()[i] == 0u32);
        assert(0u32 & (1u32 << c) == 0) by (bit_vector);
        if before.on_map_spec(x, y) {
            assert(32 * k <= x);
        }
    }
}

/// Bit `c` of a word is bit `c % 8` of its big-endian byte `3 - c / 8`.
proof fn lemma_bit_in_byte(word: u32, c: u32)
    requires
        c < 32,
    ensures
        bit_of(word, c) == (((be_byte(word, 3 - c / 8) >> ((c % 8) as u8)) & 1u8) == 1u8),
{
    if c < 8 {
        assert((word & (1u32 << c) != 0) == ((((word as u8) >> ((c % 8) as u8)) & 1u8) == 1u8))
            by (bit_vector)
            requires
                c < 8,
        ;
    } else if c < 16 {
        assert((word & (1u32 << c) != 0) == (((((word >> 8u32) as u8) >> ((c % 8) as u8)) & 1u8)
            == 1u8)) by (bit_vector)
            requires
                8 <= c < 16,
        ;
    } else if c < 24 {
        assert((word & (1u32 << c) != 0) == (((((word >> 16u32) as u8) >> ((c % 8) as u8)) & 1u8)
            == 1u8)) by (bit_vector)
            requires
                16 <= c < 24,
        ;
    } else {
        assert((word & (1u32 << c) != 0) == (((((word >> 24u32) as u8) >> ((c % 8) as u8)) & 1u8)
            == 1u8)) by (bit_vector)
            requires
                24 <= c < 32,
        ;
    }
}

/// The bytes of a well-formed fog hold one bit per tile: each row takes
/// `4 * ceil(w / 32)` bytes, and tile `(x, y)` is bit `x % 8` of byte
/// `3 - (x % 32) / 8` of the word that holds it, set exactly when the tile
/// is clear.
pub proof fn law_bytes_tile_bits(f: Fog, x: u32, y: u32)
    requires
        f.well_formed(),
        f.on_map_spec(x, y),
    ensures
        bytes_of_words(f.words()).len() == 4 * row_ints_spec(f.w) * f.h,
        !f.occluded_spec(x, y) == (((bytes_of_words(f.words())[4 * f.index_of(x, y) + 3 - (x
            % 32) / 8] >> ((x % 8) as u8)) & 1u8) == 1u8),
{
    lemma_index_in_array(f, x, y);
    let i = f.index_of(x, y);
    let c = x % 32;
    let k = 4 * i + 3 - c / 8;
    assert(k / 4 == i && k % 4 == 3 - c / 8);
    assert(c % 8 == x % 8);
    lemma_bit_in_byte(f.words()[i], c);
    assert(4 * row_ints_spec(f.w) * f.h == 4 * (row_ints_spec(f.w) * f.h)) by (nonlinear_arith);
}

/// Reading a well-formed fog back from its bytes gives the same words, the
/// same count of revealed tiles, and again a well-formed fog.
pub proof fn law_from_bytes_round_trip(f: Fog, g: Fog)
    requires
        f.well_formed(),
        g.w == f.w && g.h == f.h,
        g.words() == words_from_bytes(bytes_of_words(f.words())),
        g.n_revealed == total_ones(words_from_bytes(bytes_of_words(f.words()))),
    ensures
        g.words() == f.words(),
        g.n_revealed == f.n_revealed,
        g.well_formed(),
        forall|x: u32, y: u32| #[trigger] g.occluded_spec(x, y) == f.occluded_spec(x, y),
{
    law_bytes_round_trip(f.words());
    assert(g.words() == f.words());
    assert forall|x: u32, y: u32| #[trigger] g.occluded_spec(x, y) == f.occluded_spec(x, y) by {
        assert(g.index_of(x, y) == f.index_of(x, y));
    }
}

/// Number of clear tiles among the first `n` of row `y`.
pub open spec fn row_clear(f: Fog, y: u32, n: int) -> nat
    decreases n,
{
    if n <= 0 {
        0
    } else {
        row_clear(f, y, n - 1) + if !f.occluded_spec((n - 1) as u32, y) {
            1nat
        } else {
            0nat
        }
    }
}

/// Number of clear tiles in the first `n` rows.
pub open spec fn clear_rows(f: Fog, n: int) -> nat
    decreases n,
{
    if n <= 0 {
        0
    } else {
        clear_rows(f, n - 1) + row_clear(f, (n - 1) as u32, f.w as int)
    }
}

/// Number of clear tiles on the map.
pub open spec fn revealed_tiles(f: Fog) -> nat {
    clear_rows(f, f.h as int)
}

/// No bit is set for a column past the right edge: in the last word of
/// each row, the bits from `w % 32` up are clear.
pub open spec fn edges_clear(f: Fog) -> bool {
    f.w % 32 == 0 || forall|y: u32, b: u32|
        y < f.h && f.w % 32 <= b < 32 ==> !#[trigger] bit_of(
            f.words()[row_ints_spec(f.w) * y + row_ints_spec(f.w) - 1],
            b,
        )
}

/// Counting the bits of a word up to `m`, past which none is set, counts
/// them all.
proof fn lemma_ones_below_top(word: u32, m: nat, n: nat)
    requires
        m <= n <= 32,
        forall|b: u32| m <= b < 32 ==> !bit_of(word, b),
    ensures
        ones_below(word, n) == ones_below(word, m),
    decreases n,
{
    if n > m {
        lemma_ones_below_top(word, m, (n - 1) as nat);
    }
}

/// The first `32 * k + j` tiles of row `y` hold as many clear ones as the
/// first `32 * k`, and the set bits among the lowest `j` of word `k`.
proof fn lemma_row_word(f: Fog, y: u32, k: int, j: int)
    requires
        f.well_formed(),
        y < f.h,
        0 <= k,
        0 <= j <= 32,
        32 * k + j <= f.w,
    ensures
        row_clear(f, y, 32 * k + j) == row_clear(f, y, 32 * k) + ones_below(
            f.words()[row_ints_spec(f.w) * y + k],
            j as nat,
        ),
    decreases j,
{
    if j > 0 {
        lemma_row_word(f, y, k, j - 1);
        let x = (32 * k + j - 1) as u32;
        assert(x / 32 == k && x % 32 == j - 1);
        assert(f.on_map_spec(x, y));
        lemma_index_in_array(f, x, y);
    }
}

/// The set bits of the first `k` words of row `y` are the clear tiles
/// among the first `32 * k` tiles of the row (all of them once `k` reaches
/// the row's words), when no bit lies past the right edge.
proof fn lemma_row_words(f: Fog, y: u32, k: int)
    requires
        f.well_formed(),
        edges_clear(f),
        y < f.h,
        0 <= k <= row_ints_spec(f.w),
    ensures
        total_ones(f.words().take(row_ints_spec(f.w) * y + k)) == total_ones(f.words().take(
            row_ints_spec(f.w) * y,
        )) + row_clear(f, y, if 32 * k <= f.w {
            32 * k
        } else {
            f.w as int
        }),
    decreases k,
{
    let r = row_ints_spec(f.w);
    if k > 0 {
        lemma_row_words(f, y, k - 1);
        assert(r * y + r <= r * f.h) by (nonlinear_arith)
            requires
                y < f.h,
                r >= 0,
        ;
        assert(0 <= r * y) by (nonlinear_arith)
            requires
                y >= 0,
                r >= 0,
        ;
        lemma_total_ones_prefix(f.words(), r * y + k);
        let word = f.words()[r * y + k - 1];
        if 32 * k <= f.w {
            lemma_row_word(f, y, k - 1, 32);
        } else {
            // The last word of the row: only its lowest `w % 32` bits count.
            let m = f.w - 32 * (k - 1);
            assert(k == r);
            assert(0 < m < 32);
            assert(m == f.w % 32);
            lemma_row_word(f, y, k - 1, m);
            assert forall|b: u32| m <= b < 32 implies !bit_of(word, b) by {
                assert(word == f.words()[r * y + r - 1]);
            }
            lemma_ones_below_top(word, m as nat, 32);
        }
    }
}

/// The set bits of the first `y` rows are their clear tiles, when no bit
/// lies past the right edge.
proof fn lemma_rows(f: Fog, y: int)
    requires
        f.well_formed(),
        edges_clear(f),
        0 <= y <= f.h,
    ensures
        total_ones(f.words().take(row_ints_spec(f.w) * y)) == clear_rows(f, y),
    decreases y,
{
    if y == 0 {
        assert(f.words().take(0) =~= Seq::<u32>::empty());
    } else {
        lemma_rows(f, y - 1);
        let r = row_ints_spec(f.w);
        lemma_row_words(f, (y - 1) as u32, r);
        assert(r * (y - 1) + r == r * y) by (nonlinear_arith);
        assert(32 * r >= f.w);
    }
}

/// In a well-formed fog with no bit past the right edge, the count of
/// revealed tiles is the number of clear tiles on the map.
pub proof fn law_revealed_counts_clear_tiles(f: Fog)
    requires
        f.well_formed(),
        edges_clear(f),
    ensures
        f.n_revealed == revealed_tiles(f),
{
    lemma_rows(f, f.h as int);
    assert(f.words().take(row_ints_spec(f.w) * f.h) =~= f.words());
}

/// A resized fog has no bit past its right edge.
proof fn lemma_resized_edges(before: Fog, after: Fog)
    requires
        dims_fit(after.w, after.h),
        after.words() == resized_words(before, after.w, after.h),
    ensures
        edges_clear(after),
{
    let w = after.w;
    let r = row_ints_spec(w);
    if w % 32 != 0 {
        assert forall|y: u32, b: u32| y < after.h && w % 32 <= b < 32 implies !#[trigger] bit_of(
            after.words()[r * y + r - 1],
            b,
        ) by {
            let i = r * y + r - 1;
            assert(r >= 1);
            assert(r * y + r <= r * after.h) by (nonlinear_arith)
                requires
                    y < after.h,
                    r >= 0,
            ;
            assert(0 <= r * y) by (nonlinear_arith)
                requires
                    y >= 0,
                    r >= 0,
            ;
            lemma_fundamental_div_mod_converse(i, r, y as int, r - 1);
            assert(w - 32 * (r - 1) == w % 32);
            if y < before.h && 32 * (r - 1) < before.w {
                let ow = before.words()[row_ints_spec(before.w) * y + (r - 1)];
                assert(after.words()[i] == ow & low_mask(min_width(w, before.w) - 32 * (r - 1)));
                lemma_low_mask_bit(ow, min_width(w, before.w) - 32 * (r - 1), b);
            } else {
                assert(after.words()[i] == 0u32);
                assert(0u32 & (1u32 << b) == 0) by (bit_vector);
            }
        }
    }
}

/// Changing only the bit of an on-map tile keeps every bit past the right
/// edge clear.
proof fn lemma_edit_keeps_edges(f: Fog, g: Fog, x: u32, y: u32, v: u32)
    requires
        f.well_formed(),
        edges_clear(f),
        f.on_map_spec(x, y),
        g.w == f.w && g.h == f.h,
        g.words() == f.words().update(f.index_of(x, y), v),
        forall|b: u32| b < 32 && b != x % 32 ==> bit_of(v, b) == bit_of(
            f.words()[f.index_of(x, y)],
            b,
        ),
    ensures
        edges_clear(g),
{
    let w = f.w;
    let r = row_ints_spec(w);
    lemma_index_in_array(f, x, y);
    if w % 32 != 0 {
        assert forall|y2: u32, b: u32| y2 < g.h && w % 32 <= b < 32 implies !#[trigger] bit_of(
            g.words()[r * y2 + r - 1],
            b,
        ) by {
            let i = r * y2 + r - 1;
            assert(r >= 1);
            assert(r * y2 + r <= r * f.h) by (nonlinear_arith)
                requires
                    y2 < f.h,
                    r >= 0,
            ;
            assert(0 <= r * y2) by (nonlinear_arith)
                requires
                    y2 >= 0,
                    r >= 0,
            ;
            assert(!bit_of(f.words()[r * y2 + r - 1], b));
            if i == f.index_of(x, y) {
                lemma_fundamental_div_mod_converse(i, r, y2 as int, r - 1);
                lemma_fundamental_div_mod_converse(i, r, y as int, (x / 32) as int);
                assert(x / 32 == r - 1);
                assert(x % 32 < w % 32);
            }
        }
    }
}

proof fn lemma_total_ones_take_bound(s: Seq<u32>, j: int)
    requires
        0 <= j <= s.len(),
    ensures
        total_ones(s.take(j)) <= total_ones(s),
    decreases s.len() - j,
{
    if j < s.len() {
        lemma_total_ones_take_bound(s, j + 1);
        lemma_total_ones_prefix(s, j + 1);
    } else {
        assert(s.take(j) =~= s);
    }
}

proof fn lemma_total_ones_prefix(s: Seq<u32>, j: int)
    requires
        0 < j <= s.len(),
    ensures
        total_ones(s.take(j)) == total_ones(s.take(j - 1)) + popcount(s[j - 1]),
{
    assert(s.take(j).drop_last() =~= s.take(j - 1));
}

} // verus!

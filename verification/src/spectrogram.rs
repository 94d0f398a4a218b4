//! The spectrogram image: a ring of columns that scrolls by moving a cursor.

use crate::band::{rate_of_rows, sample_band, twice_the_highest, MAX_BINS};
use crate::color::{level_color, Rgb};
use crate::level::Level;
use crate::math::Math;
use vstd::prelude::*;

verus! {

/// The color of a column that holds nothing yet.
pub open spec fn blank() -> Rgb {
    Rgb { r: 14, g: 15, b: 20 }
}

/// The color of a column that holds nothing yet.
pub fn background() -> (c: Rgb)
    ensures
        c == blank(),
{
    Rgb { r: 14, g: 15, b: 20 }
}

/// The pixel in column `x` and row `y` of an image `w` pixels wide.
pub open spec fn pixel_at(pixels: Seq<Rgb>, w: int, x: int, y: int) -> Rgb {
    pixels[y * w + x]
}

/// An image, row by row.
pub struct Image {
    /// Width and height.
    pub size: [usize; 2],
    pub pixels: Vec<Rgb>,
}

impl Image {
    /// There are as many pixels as the size says.
    pub open spec fn wf(self) -> bool {
        self.pixels@.len() == self.size[0] * self.size[1]
    }

    /// The column `x`, from top to bottom.
    pub open spec fn column(self, x: int) -> Seq<Rgb> {
        Seq::new(
            self.size[1] as nat,
            |y: int| pixel_at(self.pixels@, self.size[0] as int, x, y),
        )
    }

    /// An image of one color.
    pub fn filled(size: [usize; 2], color: Rgb) -> (image: Image)
        requires
            size[0] * size[1] <= usize::MAX,
        ensures
            image.wf(),
            image.size == size,
            image.pixels@ == Seq::new((size[0] * size[1]) as nat, |i: int| color),
    {
        let n: usize = size[0] * size[1];
        let mut pixels: Vec<Rgb> = Vec::new();
        let mut i: usize = 0;
        while i < n
            invariant
                i <= n,
                pixels@ =~= Seq::new(i as nat, |j: int| color),
            decreases n - i,
        {
            pixels.push(color);
            i += 1;
        }
        Image { size, pixels }
    }
}

impl Clone for Image {
    fn clone(&self) -> (copy: Image)
        ensures
            copy.size == self.size,
            copy.pixels@ == self.pixels@,
    {
        let pixels = self.pixels.clone();
        assert(pixels@ =~= self.pixels@);
        Image { size: self.size, pixels }
    }
}

/// Two pixels have the same place in an image only if they are the same.
proof fn lemma_place(w: int, h: int, x1: int, y1: int, x2: int, y2: int)
    requires
        0 <= x1 < w,
        0 <= x2 < w,
        0 <= y1 < h,
        0 <= y2 < h,
    ensures
        0 <= y1 * w + x1 < w * h,
        y1 * w + x1 == y2 * w + x2 ==> x1 == x2 && y1 == y2,
{
    assert(0 <= y1 * w + x1 < w * h) by (nonlinear_arith)
        requires
            0 <= x1 < w,
            0 <= y1 < h,
    ;
    assert(y1 * w + x1 == y2 * w + x2 ==> y1 == y2) by (nonlinear_arith)
        requires
            0 <= x1 < w,
            0 <= x2 < w,
    ;
}

/// The columns of a ring in the order in which they are shown, from the one at `head` on.
pub open spec fn unrolled(img: Image, head: int) -> Seq<Seq<Rgb>> {
    Seq::new(img.size[0] as nat, |j: int| img.column((head + j) % (img.size[0] as int)))
}

/// One column to be uploaded, and where it goes.
pub struct Patch {
    pub x: usize,
    pub pixels: Vec<Rgb>,
}

/// The spectrogram.
pub struct Spectrogram {
    /// The columns, as a horizontal ring.
    pub img: Image,
    /// The column that holds the oldest data, which is where the next one is written.
    pub head: usize,
    /// Columns ever written.
    pub written: u64,
    /// Per row, the span of fractional bins that it covers.
    pub row_bands: Vec<(Level, Level)>,
    /// The sample rate that the bands are made for.
    pub mapped_sr: u32,
}

impl Spectrogram {
    /// Width in pixels.
    pub open spec fn width(self) -> int {
        self.img.size[0] as int
    }

    /// Height in pixels.
    pub open spec fn height(self) -> int {
        self.img.size[1] as int
    }

    /// The cursor stands on a column, and widths are small enough to be added up.
    pub open spec fn wf(self) -> bool {
        &&& self.img.wf()
        &&& 2 * self.width() <= usize::MAX
        &&& self.head < self.width() || self.head == 0
    }

    /// The columns as they are shown, the oldest on the left.
    pub open spec fn display(self) -> Seq<Seq<Rgb>> {
        unrolled(self.img, self.head as int)
    }

    /// Writes a column over the oldest one and moves the cursor on.
    pub fn write_column(&mut self, column: &Vec<Rgb>)
        requires
            old(self).wf(),
            old(self).width() > 0,
            column@.len() == old(self).height(),
            old(self).written < u64::MAX,
        ensures
            final(self).wf(),
            final(self).img.size == old(self).img.size,
            final(self).display() == old(self).display().skip(1).push(column@),
            final(self).head == (old(self).head + 1) % old(self).width(),
            final(self).written == old(self).written + 1,
            final(self).row_bands == old(self).row_bands,
            final(self).mapped_sr == old(self).mapped_sr,
    {
        let w = self.img.size[0];
        let h = self.img.size[1];
        let x = self.head;
        let ghost before = self.img.pixels@;
        assert(before.len() == self.img.pixels.len());
        let mut row: usize = 0;
        while row < h
            invariant
                row <= h,
                w == old(self).width(),
                h == old(self).height(),
                x == old(self).head,
                x < w,
                column@.len() == h,
                before == old(self).img.pixels@,
                before.len() == w * h,
                self.img.pixels@.len() == w * h,
                w * h <= usize::MAX,
                self.img.size == old(self).img.size,
                self.head == old(self).head,
                self.written == old(self).written,
                self.row_bands == old(self).row_bands,
                self.mapped_sr == old(self).mapped_sr,
                forall|i: int, y: int|
                    0 <= i < w && 0 <= y < h ==> #[trigger] pixel_at(
                        self.img.pixels@,
                        w as int,
                        i,
                        y,
                    ) == if i == x && y < row {
                        column@[y]
                    } else {
                        pixel_at(before, w as int, i, y)
                    },
            decreases h - row,
        {
            proof {
                lemma_place(w as int, h as int, x as int, row as int, x as int, row as int);
                assert(row * w <= row * w + x);
            }
            let ghost earlier = self.img.pixels@;
            self.img.pixels.set(row * w + x, column[row]);
            proof {
                assert forall|i: int, y: int| 0 <= i < w && 0 <= y < h implies #[trigger] pixel_at(
                    self.img.pixels@,
                    w as int,
                    i,
                    y,
                ) == if i == x && y < row + 1 {
                    column@[y]
                } else {
                    pixel_at(before, w as int, i, y)
                } by {
                    lemma_place(w as int, h as int, i, y, x as int, row as int);
                    assert(pixel_at(earlier, w as int, i, y) == if i == x && y < row {
                        column@[y]
                    } else {
                        pixel_at(before, w as int, i, y)
                    });
                }
            }
            row += 1;
        }
        self.head = (x + 1) % w;
        self.written = self.written + 1;
        proof {
            let next = old(self).display().skip(1).push(column@);
            assert forall|j: int| 0 <= j < w implies #[trigger] self.display()[j] == next[j] by {
                let at = (self.head + j) % (w as int);
                lemma_wrap(x as int, 1, w as int);
                lemma_wrap(self.head as int, j, w as int);
                lemma_wrap(x as int, j + 1, w as int);
                if j < w - 1 {
                    assert(at == (x + j + 1) % (w as int));
                    assert(at != x);
                    assert(self.img.column(at) =~= old(self).img.column(at));
                    assert(next[j] == old(self).display()[j + 1]);
                } else {
                    assert(at == x);
                    assert(self.img.column(at) =~= column@);
                }
            }
            assert(self.display() =~= next);
        }
    }

    /// An empty spectrogram of the size `size`.
    pub fn new(size: [usize; 2]) -> (s: Self)
        requires
            size[0] * size[1] <= usize::MAX,
            2 * size[0] <= usize::MAX,
        ensures
            s.wf(),
            s.img.size == size,
            s.img.pixels@ == Seq::new((size[0] * size[1]) as nat, |i: int| blank()),
            s.head == 0,
            s.written == 0,
            s.row_bands@ == Seq::<(Level, Level)>::empty(),
            s.mapped_sr == 0,
    {
        Spectrogram {
            img: Image::filled(size, background()),
            head: 0,
            written: 0,
            row_bands: Vec::new(),
            mapped_sr: 0,
        }
    }

    /// Computes, for each row, the span of bins that it covers at the sample rate `sr`. The
    /// row 0 is the top, with the highest frequency.
    pub fn rebuild_row_bands<M: Math>(&mut self, m: &M, sr: u32)
        requires
            old(self).wf(),
        ensures
            final(self).wf(),
            are_row_bands(m, sr, old(self).height(), final(self).row_bands@),
            final(self).mapped_sr == sr,
            final(self).img == old(self).img,
            final(self).head == old(self).head,
            final(self).written == old(self).written,
    {
        let h = self.img.size[1];
        let rate = rate_of_rows(sr);
        let top = twice_the_highest(rate);
        let mut bands: Vec<(Level, Level)> = Vec::new();
        let mut row: usize = 0;
        while row < h
            invariant
                row <= h,
                rate == crate::band::row_rate(sr),
                top == crate::band::axis_top(rate),
                bands@.len() == row,
                forall|i: int| 0 <= i < row ==> #[trigger] is_row_band(m, sr, h as int, i, bands@[i]),
            decreases h - row,
        {
            let low = m.row_edge(rate, top, h, row + 1);
            let high = m.row_edge(rate, top, h, row);
            let ghost earlier = bands@;
            bands.push((low, high));
            proof {
                assert forall|i: int| 0 <= i < row + 1 implies #[trigger] is_row_band(
                    m,
                    sr,
                    h as int,
                    i,
                    bands@[i],
                ) by {
                    if i < row {
                        assert(is_row_band(m, sr, h as int, i, earlier[i]));
                    }
                }
            }
            row += 1;
        }
        self.row_bands = bands;
        self.mapped_sr = sr;
    }

    /// Paints one column, from top to bottom.
    pub fn paint_column<M: Math>(&self, m: &M, column: &Vec<Level>) -> (pixels: Vec<Rgb>)
        requires
            column@.len() <= MAX_BINS,
        ensures
            is_painted(m, column@, self.row_bands@, pixels@),
    {
        let mut pixels: Vec<Rgb> = Vec::new();
        let mut row: usize = 0;
        while row < self.row_bands.len()
            invariant
                row <= self.row_bands@.len(),
                column@.len() <= MAX_BINS,
                pixels@.len() == row,
                forall|i: int|
                    0 <= i < row ==> #[trigger] is_pixel(m, column@, self.row_bands@[i], pixels@[i]),
            decreases self.row_bands@.len() - row,
        {
            let band = self.row_bands[row];
            let db = sample_band(m, column, band.0, band.1);
            let color = level_color(m, db);
            let ghost earlier = pixels@;
            pixels.push(color);
            proof {
                assert(is_pixel(m, column@, self.row_bands@[row as int], color));
                assert forall|i: int| 0 <= i < row + 1 implies #[trigger] is_pixel(
                    m,
                    column@,
                    self.row_bands@[i],
                    pixels@[i],
                ) by {
                    if i < row {
                        assert(is_pixel(m, column@, self.row_bands@[i], earlier[i]));
                    }
                }
            }
            row += 1;
        }
        pixels
    }

    /// Appends every column, oldest first, and says what to upload. Those older than a full
    /// width would be overwritten again and are left out. Nothing happens before the bands
    /// fit the image.
    pub fn push_spectro_columns<M: Math>(&mut self, m: &M, columns: &Vec<Vec<Level>>) -> (patches:
        Vec<Patch>)
        requires
            old(self).wf(),
            old(self).written + old(self).width() <= u64::MAX,
            forall|i: int| 0 <= i < columns@.len() ==> (#[trigger] columns@[i])@.len() <= MAX_BINS,
        ensures
            final(self).wf(),
            is_pushed(m, *old(self), columns@, *final(self), patches@),
    {
        let w = self.img.size[0];
        let mut patches: Vec<Patch> = Vec::new();
        proof {
            assert(patch_views(patches@) =~= Seq::empty());
            assert(self.display() + patch_views(patches@) =~= self.display());
        }
        if self.row_bands.len() != self.img.size[1] {
            return patches;
        }
        let total = columns.len();
        let skip = if total > w {
            total - w
        } else {
            0
        };
        let mut i = skip;
        while i < total
            invariant
                skip <= i <= total,
                total == columns@.len(),
                w == old(self).width(),
                skip == if total > w {
                    total - w
                } else {
                    0
                },
                self.wf(),
                old(self).wf(),
                self.img.size == old(self).img.size,
                self.row_bands == old(self).row_bands,
                self.mapped_sr == old(self).mapped_sr,
                self.row_bands@.len() == self.height(),
                old(self).written + w <= u64::MAX,
                self.written == old(self).written + (i - skip),
                self.head == if i == skip {
                    old(self).head as int
                } else {
                    (old(self).head + (i - skip)) % (w as int)
                },
                patches@.len() == i - skip,
                forall|k: int|
                    0 <= k < patches@.len() ==> #[trigger] is_patch(
                        m,
                        columns@[skip + k]@,
                        old(self).row_bands@,
                        old(self).head + k,
                        w as int,
                        patches@[k],
                    ),
                self.display() == crate::window::last_of(
                    old(self).display() + patch_views(patches@),
                    w as int,
                ),
                forall|k: int|
                    0 <= k < columns@.len() ==> (#[trigger] columns@[k])@.len() <= MAX_BINS,
            decreases total - i,
        {
            let x = self.head;
            let pixels = self.paint_column(m, &columns[i]);
            let ghost earlier = patches@;
            let ghost shown = self.display();
            self.write_column(&pixels);
            patches.push(Patch { x, pixels });
            proof {
                let k = i - skip;
                lemma_wrap(old(self).head as int, 0, w as int);
                vstd::arithmetic::div_mod::lemma_add_mod_noop_right(
                    1,
                    old(self).head + k,
                    w as int,
                );
                assert(is_patch(
                    m,
                    columns@[skip + k]@,
                    old(self).row_bands@,
                    old(self).head + k,
                    w as int,
                    patches@[k],
                ));
                assert forall|k: int| 0 <= k < patches@.len() implies #[trigger] is_patch(
                    m,
                    columns@[skip + k]@,
                    old(self).row_bands@,
                    old(self).head + k,
                    w as int,
                    patches@[k],
                ) by {
                    if k < earlier.len() {
                        assert(is_patch(
                            m,
                            columns@[skip + k]@,
                            old(self).row_bands@,
                            old(self).head + k,
                            w as int,
                            earlier[k],
                        ));
                    }
                }
                let all = old(self).display() + patch_views(earlier);
                assert(patch_views(patches@) =~= patch_views(earlier).push(pixels@));
                assert(all.push(pixels@) =~= old(self).display() + patch_views(patches@));
                crate::window::lemma_last_of_push(all, pixels@, w as int);
                assert(shown.skip(1).push(pixels@) =~= crate::window::last_of(
                    shown.push(pixels@),
                    w as int,
                ));
            }
            i += 1;
        }
        patches
    }

    /// The pixel in column `x` and row `y` after a resize to `w` times `h`.
    pub open spec fn resized_pixel(self, w: int, h: int, x: int, y: int) -> Rgb {
        let keep = if w < self.width() {
            w
        } else {
            self.width()
        };
        if x < w - keep {
            blank()
        } else {
            pixel_at(
                self.img.pixels@,
                self.width(),
                (self.head + self.width() - keep + (x - (w - keep))) % self.width(),
                y * self.height() / h,
            )
        }
    }

    /// Resizes the image and carries the history over: the newest columns stay, on the
    /// right, and their rows are sampled anew. The cursor goes back to the first column.
    /// False when the size is what it was.
    pub fn resize(&mut self, w: usize, h: usize) -> (changed: bool)
        requires
            old(self).wf(),
            w * h <= usize::MAX,
            2 * w <= usize::MAX,
            h * old(self).height() <= usize::MAX,
            old(self).height() > 0 || old(self).width() == 0 || w == 0 || h == 0,
        ensures
            final(self).wf(),
            changed == (w != old(self).width() || h != old(self).height()),
            !changed ==> *final(self) == *old(self),
            changed ==> {
                &&& final(self).img.size[0] == w
                &&& final(self).img.size[1] == h
                &&& final(self).head == 0
                &&& final(self).display() == resized(
                    old(self).display(),
                    old(self).height(),
                    w as int,
                    h as int,
                )
            },
            final(self).written == old(self).written,
            final(self).row_bands == old(self).row_bands,
            final(self).mapped_sr == old(self).mapped_sr,
    {
        let ow = self.img.size[0];
        let oh = self.img.size[1];
        if w == ow && h == oh {
            return false;
        }
        let keep = if w < ow {
            w
        } else {
            ow
        };
        assert(self.img.pixels@.len() == self.img.pixels.len());
        let mut pixels: Vec<Rgb> = Vec::new();
        let mut y: usize = 0;
        while y < h
            invariant
                y <= h,
                ow == self.width(),
                oh == self.height(),
                self.wf(),
                w * h <= usize::MAX,
                h * oh <= usize::MAX,
                2 * ow <= usize::MAX,
                ow * oh <= usize::MAX,
                keep == if w < ow {
                    w
                } else {
                    ow
                },
                oh > 0 || ow == 0 || w == 0 || h == 0,
                pixels@.len() == y * w,
                forall|i: int, k: int|
                    0 <= i < w && 0 <= k < y ==> #[trigger] pixel_at(pixels@, w as int, i, k)
                        == self.resized_pixel(w as int, h as int, i, k),
            decreases h - y,
        {
            proof {
                lemma_scale(y as int, oh as int, h as int);
                assert(y * w + w == (y + 1) * w && (y + 1) * w <= w * h) by (nonlinear_arith)
                    requires
                        0 <= y < h,
                        0 <= w,
                ;
            }
            let sy: usize = y * oh / h;
            let mut x: usize = 0;
            while x < w
                invariant
                    x <= w,
                    y < h,
                    ow == self.width(),
                    oh == self.height(),
                    self.wf(),
                    2 * ow <= usize::MAX,
                    ow * oh <= usize::MAX,
                    keep == if w < ow {
                        w
                    } else {
                        ow
                    },
                    oh > 0 || ow == 0 || w == 0 || h == 0,
                    sy == y * oh / (h as int),
                    oh > 0 ==> sy < oh,
                    y * w + w <= usize::MAX,
                    pixels@.len() == y * w + x,
                    forall|i: int, k: int|
                        0 <= i < w && 0 <= k && (k < y || k == y && i < x) ==> #[trigger] pixel_at(
                            pixels@,
                            w as int,
                            i,
                            k,
                        ) == self.resized_pixel(w as int, h as int, i, k),
                decreases w - x,
            {
                let ghost earlier = pixels@;
                if x < w - keep {
                    pixels.push(background());
                } else {
                    let sx: usize = (self.head + (ow - keep) + (x - (w - keep))) % ow;
                    proof {
                        lemma_place(ow as int, oh as int, sx as int, sy as int, sx as int, sy as int);
                    }
                    pixels.push(self.img.pixels[sy * ow + sx]);
                }
                proof {
                    assert forall|i: int, k: int|
                        0 <= i < w && 0 <= k && (k < y || k == y && i < x + 1) implies #[trigger] pixel_at(
                        pixels@,
                        w as int,
                        i,
                        k,
                    ) == self.resized_pixel(w as int, h as int, i, k) by {
                        lemma_place(w as int, h as int, i, k, x as int, y as int);
                        lemma_before(w as int, i, k, x as int, y as int);
                        if k < y || i < x {
                            assert(pixel_at(earlier, w as int, i, k) == self.resized_pixel(
                                w as int,
                                h as int,
                                i,
                                k,
                            ));
                        }
                    }
                }
                x += 1;
            }
            y += 1;
        }
        let ghost before = *self;
        self.img = Image { size: [w, h], pixels };
        self.head = 0;
        proof {
            assert(h * w == w * h) by (nonlinear_arith);
            let next = resized(before.display(), oh as int, w as int, h as int);
            assert forall|j: int| 0 <= j < w implies #[trigger] self.display()[j] == next[j] by {
                vstd::arithmetic::div_mod::lemma_small_mod(j as nat, w as nat);
                assert forall|k: int| 0 <= k < h implies #[trigger] self.img.column(j)[k]
                    == next[j][k] by {
                    assert(pixel_at(pixels@, w as int, j, k) == before.resized_pixel(
                        w as int,
                        h as int,
                        j,
                        k,
                    ));
                    if j >= w - keep {
                        lemma_scale(k, oh as int, h as int);
                        let from = ow - keep + (j - (w - keep));
                        assert(crate::window::last_of(before.display(), w as int)[j - (w - keep)]
                            == before.display()[from]);
                    }
                }
                assert(self.img.column(j) =~= next[j]);
            }
            assert(self.display() =~= next);
        }
        true
    }
}

/// A row of a smaller or larger image corresponds to a row of this one.
proof fn lemma_scale(y: int, oh: int, h: int)
    requires
        0 <= y < h,
        0 <= oh,
    ensures
        0 <= y * oh <= h * oh,
        0 <= y * oh / h,
        oh > 0 ==> y * oh / h < oh,
{
    assert(0 <= y * oh <= h * oh && (oh > 0 ==> y * oh < oh * h)) by (nonlinear_arith)
        requires
            0 <= y < h,
            0 <= oh,
    ;
    vstd::arithmetic::div_mod::lemma_div_pos_is_pos(y * oh, h);
    if oh > 0 {
        assert(h * oh == oh * h) by (nonlinear_arith);
        vstd::arithmetic::div_mod::lemma_multiply_divide_lt(y * oh, h, oh);
    }
}

/// Pixels that come earlier in an image have a lower place.
proof fn lemma_before(w: int, x1: int, y1: int, x2: int, y2: int)
    requires
        0 <= x1 < w,
        0 <= x2 < w,
        0 <= y1 <= y2,
    ensures
        y1 < y2 || y1 == y2 && x1 < x2 ==> y1 * w + x1 < y2 * w + x2,
{
    assert(y1 < y2 ==> y1 * w + w <= y2 * w) by (nonlinear_arith)
        requires
            0 <= w,
    ;
}

/// A column sampled anew for a height of `h`, when it is `oh` high.
pub open spec fn resampled(column: Seq<Rgb>, oh: int, h: int) -> Seq<Rgb> {
    Seq::new(h as nat, |y: int| column[y * oh / h])
}

/// A display `oh` high after a resize to `w` times `h`: blank columns where there are too
/// few, then the newest ones.
pub open spec fn resized(display: Seq<Seq<Rgb>>, oh: int, w: int, h: int) -> Seq<Seq<Rgb>> {
    let kept = crate::window::last_of(display, w);
    Seq::new((w - kept.len()) as nat, |j: int| Seq::new(h as nat, |y: int| blank()))
        + kept.map_values(|c: Seq<Rgb>| resampled(c, oh, h))
}

/// `band` is the span of bins that the row `row` out of `h` covers.
pub open spec fn is_row_band<M: Math>(
    m: &M,
    sr: u32,
    h: int,
    row: int,
    band: (Level, Level),
) -> bool {
    let rate = crate::band::row_rate(sr);
    let top = crate::band::axis_top(rate);
    &&& call_ensures(M::row_edge, (m, rate, top, h as usize, (row + 1) as usize), band.0)
    &&& call_ensures(M::row_edge, (m, rate, top, h as usize, row as usize), band.1)
}

/// `bands` are the spans of bins that the rows of an image `h` pixels high cover.
pub open spec fn are_row_bands<M: Math>(m: &M, sr: u32, h: int, bands: Seq<(Level, Level)>) -> bool {
    &&& bands.len() == h
    &&& forall|i: int| 0 <= i < h ==> #[trigger] is_row_band(m, sr, h, i, bands[i])
}

/// `pixel` shows `column` over the bins in `band`.
pub open spec fn is_pixel<M: Math>(
    m: &M,
    column: Seq<Level>,
    band: (Level, Level),
    pixel: Rgb,
) -> bool {
    exists|db: Level|
        crate::band::is_band(m, column, band.0, band.1, db) && #[trigger] crate::color::is_level_color(
            m,
            db,
            pixel,
        )
}

/// `pixels` show `column`, one per band.
pub open spec fn is_painted<M: Math>(
    m: &M,
    column: Seq<Level>,
    bands: Seq<(Level, Level)>,
    pixels: Seq<Rgb>,
) -> bool {
    &&& pixels.len() == bands.len()
    &&& forall|i: int| 0 <= i < bands.len() ==> #[trigger] is_pixel(m, column, bands[i], pixels[i])
}

/// `patch` shows `column` at the place `at` of a ring of `w` columns.
pub open spec fn is_patch<M: Math>(
    m: &M,
    column: Seq<Level>,
    bands: Seq<(Level, Level)>,
    at: int,
    w: int,
    patch: Patch,
) -> bool {
    &&& is_painted(m, column, bands, patch.pixels@)
    &&& patch.x == at % w
}

/// `b` is the spectrogram `a` after `columns` have been appended, and `patches` are the
/// uploads. Of the columns the last ones that fit are painted, each over the oldest column
/// of the ring; without a band per row nothing changes.
pub open spec fn is_pushed<M: Math>(
    m: &M,
    a: Spectrogram,
    columns: Seq<Vec<Level>>,
    b: Spectrogram,
    patches: Seq<Patch>,
) -> bool {
    let w = a.width();
    let n = patches.len();
    if a.row_bands@.len() != a.height() {
        n == 0 && b == a
    } else {
        &&& n == if columns.len() < w {
            columns.len() as int
        } else {
            w
        }
        &&& forall|k: int|
            0 <= k < n ==> #[trigger] is_patch(
                m,
                columns[columns.len() - n + k]@,
                a.row_bands@,
                a.head + k,
                w,
                patches[k],
            )
        &&& b.display() == crate::window::last_of(a.display() + patch_views(patches), w)
        &&& b.head == if n == 0 {
            a.head as int
        } else {
            (a.head + n) % w
        }
        &&& b.written == a.written + n
        &&& b.img.size == a.img.size
        &&& b.row_bands == a.row_bands
        &&& b.mapped_sr == a.mapped_sr
    }
}

/// The pixels of the patches.
pub open spec fn patch_views(patches: Seq<Patch>) -> Seq<Seq<Rgb>> {
    patches.map_values(|p: Patch| p.pixels@)
}

/// A run of columns of the ring that is shown in one piece.
#[derive(Clone, Copy, PartialEq, Eq, Structural, Debug)]
pub struct Slice {
    /// First column of the ring.
    pub from: usize,
    /// Column of the ring after the last one.
    pub to: usize,
    /// Column of the display where the run starts.
    pub left: usize,
}

/// The runs of columns to show, from left to right: from the cursor to the end of the ring,
/// which is the older part, and what comes before the cursor.
pub fn ring_slices(head: usize, width: usize) -> (slices: Vec<Slice>)
    requires
        head <= width,
    ensures
        slices@ == (if head > 0 {
            seq![
                Slice { from: head, to: width, left: 0 },
                Slice { from: 0, to: head, left: (width - head) as usize },
            ]
        } else {
            seq![Slice { from: 0, to: width, left: 0 }]
        }),
{
    let mut slices: Vec<Slice> = Vec::new();
    slices.push(Slice { from: head, to: width, left: 0 });
    if head > 0 {
        slices.push(Slice { from: 0, to: head, left: width - head });
    }
    slices
}

impl Slice {
    /// The run covers the place `j` of the display.
    pub open spec fn covers(self, j: int) -> bool {
        self.left <= j < self.left + (self.to - self.from)
    }
}

/// The slices show every column in display order: each place of the display is covered, by
/// the column of the ring that belongs there.
pub proof fn slices_follow_the_display(s: Spectrogram, slices: Seq<Slice>)
    requires
        s.wf(),
        s.width() > 0,
        slices == (if s.head > 0 {
            seq![
                Slice { from: s.head, to: s.img.size[0], left: 0 },
                Slice { from: 0, to: s.head, left: (s.width() - s.head) as usize },
            ]
        } else {
            seq![Slice { from: 0, to: s.img.size[0], left: 0 }]
        }),
    ensures
        forall|j: int|
            0 <= j < s.width() ==> exists|k: int|
                0 <= k < slices.len() && (#[trigger] slices[k]).covers(j)
                    && #[trigger] s.display()[j] == s.img.column(
                    slices[k].from + (j - slices[k].left),
                ),
{
    assert forall|j: int| 0 <= j < s.width() implies exists|k: int|
        0 <= k < slices.len() && (#[trigger] slices[k]).covers(j) && #[trigger] s.display()[j]
            == s.img.column(slices[k].from + (j - slices[k].left)) by {
        lemma_wrap(s.head as int, j, s.width());
        if j < s.width() - s.head {
            assert(slices[0].covers(j));
        } else {
            assert(slices[1].covers(j));
        }
    }
}

/// The remainder of a number less than two widths.
pub proof fn lemma_wrap(head: int, j: int, w: int)
    requires
        0 <= head < w,
        0 <= j <= w,
    ensures
        (head + j) % w == if head + j < w {
            head + j
        } else {
            head + j - w
        },
{
    if head + j < w {
        vstd::arithmetic::div_mod::lemma_small_mod((head + j) as nat, w as nat);
    } else {
        vstd::arithmetic::div_mod::lemma_fundamental_div_mod_converse(
            head + j,
            w,
            1,
            head + j - w,
        );
    }
}

/// The ring reads back oldest left and newest right, however the columns arrive: after the
/// columns `a` and then `b` the display holds the last of all that were ever shown, and
/// once a full width of them has arrived, the last of those alone.
pub proof fn ring_shows_the_last_columns(
    shown: Seq<Seq<Rgb>>,
    a: Seq<Seq<Rgb>>,
    b: Seq<Seq<Rgb>>,
    w: int,
)
    requires
        w >= 0,
    ensures
        crate::window::last_of(crate::window::last_of(shown + a, w) + b, w)
            == crate::window::last_of(shown + (a + b), w),
        a.len() + b.len() >= w ==> crate::window::last_of(shown + (a + b), w)
            == crate::window::last_of(a + b, w),
{
    crate::window::lemma_last_of_concat(shown + a, b, w);
    assert(shown + a + b =~= shown + (a + b));
    if a.len() + b.len() >= w {
        assert(crate::window::last_of(shown + (a + b), w) =~= crate::window::last_of(a + b, w));
    }
}

/// Columns pushed in two calls end up where those of one call do: the display holds the last
/// of what was shown before, the columns painted first and those painted then.
pub proof fn pushing_in_pieces<M: Math>(
    m: &M,
    a: Spectrogram,
    first: Seq<Vec<Level>>,
    b: Spectrogram,
    p: Seq<Patch>,
    then: Seq<Vec<Level>>,
    c: Spectrogram,
    q: Seq<Patch>,
)
    requires
        a.wf(),
        a.width() > 0,
        a.row_bands@.len() == a.height(),
        is_pushed(m, a, first, b, p),
        is_pushed(m, b, then, c, q),
    ensures
        c.display() == crate::window::last_of(
            a.display() + patch_views(p + q),
            a.width(),
        ),
        c.head == (a.head + p.len() + q.len()) % a.width(),
        c.written == a.written + p.len() + q.len(),
{
    let w = a.width();
    ring_shows_the_last_columns(a.display(), patch_views(p), patch_views(q), w);
    assert(patch_views(p + q) =~= patch_views(p) + patch_views(q));
    vstd::arithmetic::div_mod::lemma_add_mod_noop(a.head + p.len(), q.len() as int, w);
    vstd::arithmetic::div_mod::lemma_add_mod_noop((a.head + p.len()) % w, q.len() as int, w);
    vstd::arithmetic::div_mod::lemma_mod_twice(a.head + p.len(), w);
    vstd::arithmetic::div_mod::lemma_small_mod(a.head as nat, w as nat);
}

/// Once a full width of columns has been pushed, the display shows the newest of them, the
/// oldest on the left and the newest on the right.
pub proof fn display_shows_the_newest_columns<M: Math>(
    m: &M,
    a: Spectrogram,
    columns: Seq<Vec<Level>>,
    b: Spectrogram,
    patches: Seq<Patch>,
)
    requires
        a.wf(),
        a.row_bands@.len() == a.height(),
        columns.len() >= a.width(),
        is_pushed(m, a, columns, b, patches),
    ensures
        b.display().len() == a.width(),
        forall|j: int|
            0 <= j < a.width() ==> is_painted(
                m,
                columns[columns.len() - a.width() + j]@,
                a.row_bands@,
                #[trigger] b.display()[j],
            ),
{
    let w = a.width();
    let views = patch_views(patches);
    assert(crate::window::last_of(a.display() + views, w) =~= views);
    assert forall|j: int| 0 <= j < w implies is_painted(
        m,
        columns[columns.len() - w + j]@,
        a.row_bands@,
        #[trigger] b.display()[j],
    ) by {
        assert(is_patch(
            m,
            columns[columns.len() - patches.len() + j]@,
            a.row_bands@,
            a.head + j,
            w,
            patches[j],
        ));
    }
}

/// A resize carries the newest columns over: at the same height they stay as they are.
pub proof fn resize_keeps_the_newest_columns(display: Seq<Seq<Rgb>>, w: int, h: int)
    requires
        w >= 0,
        h > 0,
        forall|j: int| 0 <= j < display.len() ==> (#[trigger] display[j]).len() == h,
    ensures
        resized(display, h, w, h).len() == w,
        crate::window::last_of(
            resized(display, h, w, h),
            crate::window::last_of(display, w).len() as int,
        ) == crate::window::last_of(display, w),
{
    let kept = crate::window::last_of(display, w);
    let all = resized(display, h, w, h);
    let tail = crate::window::last_of(all, kept.len() as int);
    assert forall|j: int| 0 <= j < kept.len() implies #[trigger] tail[j] == kept[j] by {
        assert(tail[j] == resampled(kept[j], h, h));
        assert(kept[j].len() == h);
        assert forall|y: int| 0 <= y < h implies #[trigger] resampled(kept[j], h, h)[y]
            == kept[j][y] by {
            vstd::arithmetic::div_mod::lemma_div_multiples_vanish(y, h);
            assert(y * h == h * y) by (nonlinear_arith);
        }
        assert(resampled(kept[j], h, h) =~= kept[j]);
    }
    assert(tail =~= kept);
}

} // verus!

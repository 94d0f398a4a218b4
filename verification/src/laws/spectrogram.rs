//! Laws of the spectrogram image.

use crate::color::Rgb;
use crate::laws::band::is_span_reading;
use crate::laws::color::{is_made_of, is_shade_of};
use crate::level::Level;
use crate::math::Math;
use crate::spectrogram::{Image, Patch, Slice, Spectrogram};
use vstd::arithmetic::power2::pow2;
use vstd::prelude::*;

verus! {

/// The pixel in column `x` and row `y` of an image `w` pixels wide.
pub open spec fn pixel(pixels: Seq<Rgb>, w: int, x: int, y: int) -> Rgb {
    pixels[y * w + x]
}

/// The color of the column `j`, counted from the oldest one, in row `y`.
pub open spec fn shown(s: Spectrogram, j: int, y: int) -> Rgb {
    pixel(s.img.pixels@, s.img.size[0] as int, (s.head + j) % (s.img.size[0] as int), y)
}

/// The display holds what is shown.
proof fn lemma_display(s: Spectrogram, j: int, y: int)
    requires
        0 <= j < s.img.size[0],
        0 <= y < s.img.size[1],
    ensures
        s.display()[j].len() == s.img.size[1],
        s.display()[j][y] == shown(s, j, y),
        s.display().len() == s.img.size[0],
{
}

/// An empty spectrogram is of one dark color.
pub proof fn an_empty_image_is_dark(size: [usize; 2], s: Spectrogram, i: int)
    requires
        call_ensures(Spectrogram::new, (size,), s),
        0 <= i < size[0] * size[1],
    ensures
        s.img.size == size,
        s.img.pixels@.len() == size[0] * size[1],
        is_made_of(s.img.pixels@[i], (14, 15, 20)),
        s.head == 0,
        s.written == 0,
        s.row_bands@.len() == 0,
{
}

/// A column goes where the oldest one was: every other column moves one place to the left, and
/// the new one is shown on the right.
pub proof fn a_column_replaces_the_oldest(
    s: &mut Spectrogram,
    column: &Vec<Rgb>,
    j: int,
    y: int,
)
    requires
        call_ensures(Spectrogram::write_column, (s, column), ()),
        old(s).wf(),
        column@.len() == old(s).img.size[1],
        0 <= j < old(s).img.size[0],
        0 <= y < old(s).img.size[1],
    ensures
        final(s).img.size == old(s).img.size,
        shown(*final(s), j, y) == if j + 1 < old(s).img.size[0] {
            shown(*old(s), j + 1, y)
        } else {
            column@[y]
        },
        final(s).head == (old(s).head + 1) % (old(s).img.size[0] as int),
        final(s).written == old(s).written + 1,
{
    lemma_display(*final(s), j, y);
    if j + 1 < old(s).img.size[0] {
        lemma_display(*old(s), j + 1, y);
    } else {
        lemma_display(*old(s), 0, y);
    }
}

/// `bands` are the spans of `h` rows at the sample rate `sr`: each covers the bins between its own
/// two edges, on an axis that reaches up to 20 kHz or half the rate; rows at sample rates below
/// 2 Hz are those of 2 Hz.
pub open spec fn are_rows<M: Math>(
    m: &M,
    sr: u32,
    h: usize,
    bands: Seq<(Level, Level)>,
) -> bool {
    let rate = vstd::math::max(sr as int, 2);
    let top = vstd::math::min(rate, 40_000);
    &&& bands.len() == h
    &&& forall|row: int|
        #![trigger bands[row]]
        0 <= row < h ==> call_ensures(
            M::row_edge,
            (m, rate as u32, top as u32, h, row as usize),
            bands[row].1,
        ) && call_ensures(
            M::row_edge,
            (m, rate as u32, top as u32, h, (row + 1) as usize),
            bands[row].0,
        )
}

/// What the rows cover.
pub proof fn lemma_rows<M: Math>(m: &M, sr: u32, h: usize, bands: Seq<(Level, Level)>)
    requires
        crate::spectrogram::are_row_bands(m, sr, h as int, bands),
    ensures
        are_rows(m, sr, h, bands),
{
    let rate = vstd::math::max(sr as int, 2);
    let top = vstd::math::min(rate, 40_000);
    assert forall|row: int|
        #![trigger bands[row]]
        0 <= row < h implies call_ensures(
        M::row_edge,
        (m, rate as u32, top as u32, h, row as usize),
        bands[row].1,
    ) && call_ensures(
        M::row_edge,
        (m, rate as u32, top as u32, h, (row + 1) as usize),
        bands[row].0,
    ) by {
        assert(crate::spectrogram::is_row_band(m, sr, h as int, row, bands[row]));
    }
}

/// Each row covers the bins between its own two edges.
pub proof fn rows_cover_the_bins_between_their_edges<M: Math>(
    m: &M,
    s: &mut Spectrogram,
    sr: u32,
)
    requires
        call_ensures(Spectrogram::rebuild_row_bands::<M>, (s, m, sr), ()),
    ensures
        are_rows(m, sr, old(s).img.size[1], final(s).row_bands@),
        final(s).mapped_sr == sr,
        final(s).img == old(s).img,
        final(s).head == old(s).head,
        final(s).written == old(s).written,
{
    lemma_rows(m, sr, old(s).img.size[1], final(s).row_bands@);
}

/// The rows leave no gap and do not overlap, and run from high to low: where edges fall from
/// row to row, each span ends where that of the row above begins, and begins no higher.
pub proof fn rows_follow_without_gaps<M: Math>(m: &M, s: &mut Spectrogram, sr: u32, row: int)
    requires
        call_ensures(Spectrogram::rebuild_row_bands::<M>, (s, m, sr), ()),
        forall|rate: u32, top: u32, rows: usize, a: usize, b: usize, x: Level, y: Level| #[trigger]
            call_ensures(M::row_edge, (m, rate, top, rows, a), x) && #[trigger] call_ensures(
                M::row_edge,
                (m, rate, top, rows, b),
                y,
            ) && a <= b <= rows ==> x.units() >= y.units() && (a == b ==> x == y),
        0 <= row < old(s).img.size[1],
    ensures
        final(s).row_bands@[row].0.units() <= final(s).row_bands@[row].1.units(),
        row + 1 < old(s).img.size[1] ==> final(s).row_bands@[row + 1].1
            == final(s).row_bands@[row].0,
{
    rows_cover_the_bins_between_their_edges(m, s, sr);
    let bands = final(s).row_bands@;
    let above = bands[row];
    if row + 1 < old(s).img.size[1] {
        let below = bands[row + 1];
    }
}

/// `color` shows `column` between the edges `lo` and `hi`.
pub open spec fn shows<M: Math>(
    m: &M,
    column: Seq<Level>,
    lo: Level,
    hi: Level,
    color: Rgb,
) -> bool {
    exists|db: Level| #[trigger]
        is_span_reading(m, column, lo, hi, db) && (!db.nan() ==> is_shade_of(m, db, color)
            && (db.units() <= -100 * pow2(149) ==> is_made_of(color, (0, 0, 4))) && (db.units()
            >= -20 * pow2(149) ==> is_made_of(color, (252, 255, 164))))
}

/// A painted pixel shows its span.
proof fn lemma_pixel<M: Math>(m: &M, column: Seq<Level>, band: (Level, Level), color: Rgb)
    requires
        crate::spectrogram::is_pixel(m, column, band, color),
        crate::laws::band::rounds_about_one(m),
        crate::laws::color::shares_follow(m),
        crate::laws::color::blends_follow(m),
        column.len() <= 0x100_0000,
    ensures
        shows(m, column, band.0, band.1, color),
{
    let db = choose|db: Level|
        crate::band::is_band(m, column, band.0, band.1, db)
            && #[trigger] crate::color::is_level_color(m, db, color);
    crate::laws::band::lemma_span_reading(m, column, band.0, band.1, db);
    if !db.nan() {
        crate::laws::color::lemma_shade(m, db, color);
    }
}

/// A column is painted row by row: each pixel shows the reading over the span of its own row.
pub proof fn each_row_shows_its_own_span<M: Math>(
    m: &M,
    s: &Spectrogram,
    column: &Vec<Level>,
    pixels: Vec<Rgb>,
    row: int,
)
    requires
        call_ensures(Spectrogram::paint_column::<M>, (s, m, column), pixels),
        crate::laws::band::rounds_about_one(m),
        crate::laws::color::shares_follow(m),
        crate::laws::color::blends_follow(m),
        column@.len() <= 0x100_0000,
        0 <= row < s.row_bands@.len(),
    ensures
        pixels@.len() == s.row_bands@.len(),
        shows(m, column@, s.row_bands@[row].0, s.row_bands@[row].1, pixels@[row]),
{
    assert(crate::spectrogram::is_pixel(m, column@, s.row_bands@[row], pixels@[row]));
    lemma_pixel(m, column@, s.row_bands@[row], pixels@[row]);
}

/// `b` is `a` after `columns`, seen at the column `j`, counted from the oldest one, and the row
/// `y`: of the columns that fit, the last one is shown on the right, each with the bins of its
/// own rows, and what was shown before moves to the left. Each is uploaded, as one of `patches`,
/// to the place in the ring where it is kept.
pub open spec fn has_entered<M: Math>(
    m: &M,
    a: Spectrogram,
    columns: Seq<Vec<Level>>,
    b: Spectrogram,
    patches: Seq<Patch>,
    j: int,
    y: int,
) -> bool {
    let w = a.img.size[0] as int;
    let n = vstd::math::min(columns.len() as int, w);
    let k = j - (w - n);
    &&& patches.len() == n
    &&& b.img.size == a.img.size
    &&& b.written == a.written + n
    &&& k < 0 ==> shown(b, j, y) == shown(a, j + n, y)
    &&& k >= 0 ==> {
        &&& patches[k].x == (a.head + k) % w
        &&& patches[k].x == (b.head + j) % w
        &&& patches[k].pixels@.len() == a.img.size[1]
        &&& shown(b, j, y) == patches[k].pixels@[y]
        &&& shows(
            m,
            columns[columns.len() - n + k]@,
            b.row_bands@[y].0,
            b.row_bands@[y].1,
            shown(b, j, y),
        )
    }
}

/// How columns enter.
pub proof fn lemma_entered<M: Math>(
    m: &M,
    a: Spectrogram,
    columns: Seq<Vec<Level>>,
    b: Spectrogram,
    patches: Seq<Patch>,
    j: int,
    y: int,
)
    requires
        crate::spectrogram::is_pushed(m, a, columns, b, patches),
        crate::laws::band::rounds_about_one(m),
        crate::laws::color::shares_follow(m),
        crate::laws::color::blends_follow(m),
        forall|i: int| 0 <= i < columns.len() ==> (#[trigger] columns[i])@.len() <= 0x100_0000,
        a.wf(),
        a.row_bands@.len() == a.img.size[1],
        0 <= j < a.img.size[0],
        0 <= y < a.img.size[1],
    ensures
        has_entered(m, a, columns, b, patches, j, y),
{
    let w = a.img.size[0] as int;
    let n = vstd::math::min(columns.len() as int, w);
    let k = j - (w - n);
    let views = crate::spectrogram::patch_views(patches);
    let all = a.display() + views;
    lemma_display(b, j, y);
    lemma_display(a, 0, y);
    assert(views.len() == n);
    assert(all.len() == w + n);
    assert(b.display()[j] == all[j + n]);
    if k < 0 {
        lemma_display(a, j + n, y);
    } else {
        let column = columns[columns.len() - n + k];
        assert(all[j + n] == views[k]);
        assert(views[k] == patches[k].pixels@);
        assert(crate::spectrogram::is_patch(
            m,
            column@,
            a.row_bands@,
            a.head + k,
            w,
            patches[k],
        ));
        assert(crate::spectrogram::is_pixel(
            m,
            column@,
            a.row_bands@[y],
            patches[k].pixels@[y],
        ));
        lemma_pixel(m, column@, a.row_bands@[y], patches[k].pixels@[y]);
        assert(b.head == (a.head + n) % w);
        vstd::arithmetic::div_mod::lemma_add_mod_noop_right(j, a.head + n, w);
        vstd::arithmetic::div_mod::lemma_mod_add_multiples_vanish(a.head + k, w);
        assert((b.head + j) % w == (a.head + n + j) % w);
        assert(a.head + n + j == w + (a.head + k));
    }
}

/// Columns enter on the right, oldest first, each over the one that was the oldest.
pub proof fn columns_enter_on_the_right<M: Math>(
    m: &M,
    s: &mut Spectrogram,
    columns: &Vec<Vec<Level>>,
    patches: Vec<Patch>,
    j: int,
    y: int,
)
    requires
        call_ensures(Spectrogram::push_spectro_columns::<M>, (s, m, columns), patches),
        crate::laws::band::rounds_about_one(m),
        crate::laws::color::shares_follow(m),
        crate::laws::color::blends_follow(m),
        forall|i: int| 0 <= i < columns@.len() ==> (#[trigger] columns@[i])@.len() <= 0x100_0000,
        old(s).wf(),
        old(s).row_bands@.len() == old(s).img.size[1],
        0 <= j < old(s).img.size[0],
        0 <= y < old(s).img.size[1],
    ensures
        has_entered(m, *old(s), columns@, *final(s), patches@, j, y),
        final(s).row_bands == old(s).row_bands,
{
    lemma_entered(m, *old(s), columns@, *final(s), patches@, j, y);
}

/// Nothing is shown before every row has its bins.
pub proof fn without_rows_nothing_enters<M: Math>(
    m: &M,
    s: &mut Spectrogram,
    columns: &Vec<Vec<Level>>,
    patches: Vec<Patch>,
)
    requires
        call_ensures(Spectrogram::push_spectro_columns::<M>, (s, m, columns), patches),
        old(s).row_bands@.len() != old(s).img.size[1],
    ensures
        patches@.len() == 0,
        *final(s) == *old(s),
{
}

/// `b` shows the newest columns of `a` on the right, with each row taken from the row at the same
/// share of the height, and fills up on the left with the dark color.
pub open spec fn is_carried_over(a: Spectrogram, b: Spectrogram) -> bool {
    let ow = a.img.size[0] as int;
    let w = b.img.size[0] as int;
    forall|j: int, y: int|
        #![trigger shown(b, j, y)]
        0 <= j < w && 0 <= y < b.img.size[1] ==> (if w - j > ow {
            is_made_of(shown(b, j, y), (14, 15, 20))
        } else {
            shown(b, j, y) == shown(
                a,
                ow - (w - j),
                y * a.img.size[1] / (b.img.size[1] as int),
            )
        })
}

/// How a resize carries the columns over.
pub proof fn lemma_carried_over(a: Spectrogram, b: Spectrogram)
    requires
        b.display() == crate::spectrogram::resized(
            a.display(),
            a.height(),
            b.width(),
            b.height(),
        ),
        a.img.size[1] > 0,
    ensures
        is_carried_over(a, b),
{
    let ow = a.img.size[0] as int;
    let oh = a.img.size[1] as int;
    let w = b.img.size[0] as int;
    let h = b.img.size[1] as int;
    let next = crate::spectrogram::resized(a.display(), oh, w, h);
    assert forall|j: int, y: int| #![trigger shown(b, j, y)] 0 <= j < w && 0 <= y < h implies (if w
        - j > ow {
        is_made_of(shown(b, j, y), (14, 15, 20))
    } else {
        shown(b, j, y) == shown(a, ow - (w - j), y * oh / h)
    }) by {
        lemma_display(b, j, y);
        if w - j <= ow {
            let from = ow - (w - j);
            let sy = y * oh / h;
            assert(0 <= y * oh && y * oh < oh * h) by (nonlinear_arith)
                requires
                    0 <= y < h,
                    0 < oh,
            ;
            vstd::arithmetic::div_mod::lemma_div_pos_is_pos(y * oh, h);
            assert(h * oh == oh * h) by (nonlinear_arith);
            vstd::arithmetic::div_mod::lemma_multiply_divide_lt(y * oh, h, oh);
            lemma_display(a, from, sy);
            let kept = crate::window::last_of(a.display(), w);
            assert(kept[j - (w - kept.len())] == a.display()[from]);
            assert(next[j] == crate::spectrogram::resampled(a.display()[from], oh, h));
        }
    }
}

/// A resize keeps the newest columns on the right, and puts the cursor on the oldest one.
pub proof fn a_resize_keeps_the_newest_columns(
    s: &mut Spectrogram,
    w: usize,
    h: usize,
    changed: bool,
)
    requires
        call_ensures(Spectrogram::resize, (s, w, h), changed),
        old(s).img.size[1] > 0,
    ensures
        changed <==> w != old(s).img.size[0] || h != old(s).img.size[1],
        !changed ==> *final(s) == *old(s),
        changed ==> {
            &&& final(s).img.size[0] == w
            &&& final(s).img.size[1] == h
            &&& final(s).head == 0
            &&& is_carried_over(*old(s), *final(s))
        },
        final(s).written == old(s).written,
        final(s).row_bands == old(s).row_bands,
{
    if changed {
        lemma_carried_over(*old(s), *final(s));
    }
}

/// What is drawn is what is shown: each place of the display is covered by exactly one slice,
/// which takes it from the place in the ring where its column is kept.
pub proof fn slices_show_each_column_once(
    head: usize,
    width: usize,
    slices: Vec<Slice>,
    j: int,
)
    requires
        call_ensures(crate::spectrogram::ring_slices, (head, width), slices),
        head < width,
        0 <= j < width,
    ensures
        exists|k: int|
            0 <= k < slices@.len() && (#[trigger] slices@[k]).left <= j < slices@[k].left
                + slices@[k].to - slices@[k].from && slices@[k].from + (j - slices@[k].left) == (
            head + j) % (width as int) && (forall|i: int|
                0 <= i < slices@.len() && i != k ==> !((#[trigger] slices@[i]).left <= j
                    < slices@[i].left + slices@[i].to - slices@[i].from)),
{
    crate::spectrogram::lemma_wrap(head as int, j, width as int);
    if j < width - head {
        assert(slices@[0].from == head && slices@[0].left == 0);
    } else {
        assert(slices@[1].from == 0 && slices@[1].left == width - head);
    }
}

/// An image of one color has that color everywhere, and an empty one is dark.
pub proof fn an_image_of_one_color(
    size: [usize; 2],
    color: Rgb,
    image: Image,
    dark: Rgb,
    i: int,
)
    requires
        call_ensures(Image::filled, (size, color), image),
        call_ensures(crate::spectrogram::background, (), dark),
        0 <= i < size[0] * size[1],
    ensures
        image.size == size,
        image.pixels@.len() == size[0] * size[1],
        image.pixels@[i] == color,
        is_made_of(dark, (14, 15, 20)),
{
}

} // verus!

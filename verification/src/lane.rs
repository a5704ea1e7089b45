//! The text track's logic apart from drawing: rows on the lane, keyboard
//! order, snapping while moving, and lane drags.

use vstd::prelude::*;

use crate::text::{text_min_duration, TextItem, FRAME_UNITS, TEXT_MIN_WIDTH};
use crate::time::{fits_i64, Ticks, FLICKS_PER_MILLI, FLICKS_PER_SECOND};

verus! {

/// Rows the text lane shows at most; further overlaps share the last row.
pub const MAX_TEXT_ROWS: usize = 3;

/// Snap distance, in frame units.
pub const SNAP_UNITS: i32 = 120;

/// Safe margin from the frame edges (5 %), in frame units.
pub const SAFE_MARGIN: i32 = 500;

/// What a pointer drag on the preview does.
#[derive(Copy, Clone, Debug, PartialEq, Eq, Structural)]
pub enum TextGesture {
    Move,
    /// A side handle: change the wrap width around the centre.
    Width { left: bool },
    /// A corner handle: scale font size and width.
    Scale,
}

impl TextGesture {
    /// From the handle code: 0 move, 1 left side, 2 right side, 3 corner;
    /// anything else moves.
    pub fn from_code(code: i32) -> (g: TextGesture)
        ensures
            g == (if code == 1 {
                TextGesture::Width { left: true }
            } else if code == 2 {
                TextGesture::Width { left: false }
            } else if code == 3 {
                TextGesture::Scale
            } else {
                TextGesture::Move
            }),
    {
        match code {
            1 => TextGesture::Width { left: true },
            2 => TextGesture::Width { left: false },
            3 => TextGesture::Scale,
            _ => TextGesture::Move,
        }
    }
}

/// What a drag on the text lane does.
#[derive(Copy, Clone, Debug, PartialEq, Eq, Structural)]
pub enum LaneGesture {
    Move,
    Start,
    End,
}

impl LaneGesture {
    /// From the lane code: 0 body, 1 left edge, 2 right edge; anything
    /// else moves.
    pub fn from_code(code: i32) -> (g: LaneGesture)
        ensures
            g == (if code == 1 {
                LaneGesture::Start
            } else if code == 2 {
                LaneGesture::End
            } else {
                LaneGesture::Move
            }),
    {
        match code {
            1 => LaneGesture::Start,
            2 => LaneGesture::End,
            _ => LaneGesture::Move,
        }
    }
}

/// Snap guides shown while moving: where the vertical and horizontal guide
/// lines are (frame units), if any.
#[derive(Copy, Clone, Debug, Default, PartialEq, Eq, Structural)]
pub struct Guides {
    pub x: Option<i32>,
    pub y: Option<i32>,
}

/// The snap candidates along one axis, as (centre to snap to, where the
/// guide goes): the frame centre, the box edge on either safe margin, and
/// the other texts' centres.
pub open spec fn candidates(half: int, others: Seq<i32>) -> Seq<(int, int)> {
    seq![
        (FRAME_UNITS / 2, FRAME_UNITS / 2),
        (SAFE_MARGIN + half, SAFE_MARGIN as int),
        (FRAME_UNITS - SAFE_MARGIN - half, (FRAME_UNITS - SAFE_MARGIN) as int),
    ] + others.map_values(|o: i32| (o as int, o as int))
}

pub open spec fn dist(a: int, b: int) -> int {
    if a >= b {
        a - b
    } else {
        b - a
    }
}

/// Position of the first candidate, from `k` on, nearest to `pos` among
/// those within the snap distance, or the number of candidates.
pub open spec fn nearest(cs: Seq<(int, int)>, pos: int, k: int) -> int
    decreases cs.len() - k,
{
    if k >= cs.len() || k < 0 {
        cs.len() as int
    } else {
        let rest = nearest(cs, pos, k + 1);
        let d = dist(cs[k].0, pos);
        if d <= SNAP_UNITS && (rest >= cs.len() || d <= dist(cs[rest].0, pos)) {
            k
        } else {
            rest
        }
    }
}

/// The correction and guide for one axis.
pub open spec fn snap_axis(pos: int, half: int, others: Seq<i32>) -> (int, Option<int>) {
    let cs = candidates(half, others);
    let n = nearest(cs, pos, 0);
    if n < cs.len() {
        (cs[n].0 - pos, Some(cs[n].1))
    } else {
        (0, None)
    }
}

/// Whether snapping along one axis stays within `i32`, as the arithmetic
/// on the candidates needs.
pub open spec fn snap_defined(pos: int, half: int, others: Seq<i32>) -> bool {
    let cs = candidates(half, others);
    &&& i32::MIN <= SAFE_MARGIN + half <= i32::MAX
    &&& i32::MIN <= FRAME_UNITS - SAFE_MARGIN - half <= i32::MAX
    &&& forall|k: int| 0 <= k < cs.len() ==> i32::MIN < #[trigger] cs[k].0 - pos <= i32::MAX
}

proof fn lemma_nearest(cs: Seq<(int, int)>, pos: int, k: int)
    requires
        0 <= k <= cs.len(),
    ensures
        k <= nearest(cs, pos, k) <= cs.len(),
        nearest(cs, pos, k) < cs.len() ==> dist(cs[nearest(cs, pos, k)].0, pos) <= SNAP_UNITS,
    decreases cs.len() - k,
{
    if k < cs.len() {
        lemma_nearest(cs, pos, k + 1);
    }
}

/// Snapping for one axis: the correction to the nearest candidate within
/// reach and its guide.
fn snap_axis_exec(pos: i32, half: i32, others: &Vec<i32>) -> (r: (i32, Option<i32>))
    requires
        snap_defined(pos as int, half as int, others@),
    ensures
        r.0 as int == snap_axis(pos as int, half as int, others@).0,
        match snap_axis(pos as int, half as int, others@).1 {
            Some(g) => r.1 == Some(g as i32),
            None => r.1 is None,
        },
{
    let ghost cs = candidates(half as int, others@);
    let mut c: Vec<(i32, i32)> = Vec::new();
    c.push((FRAME_UNITS / 2, FRAME_UNITS / 2));
    c.push((SAFE_MARGIN + half, SAFE_MARGIN));
    c.push((FRAME_UNITS - SAFE_MARGIN - half, FRAME_UNITS - SAFE_MARGIN));
    let mut i: usize = 0;
    while i < others.len()
        invariant
            i <= others@.len(),
            cs == candidates(half as int, others@),
            c@.len() == 3 + i,
            forall|k: int| 0 <= k < c@.len() ==> (#[trigger] c@[k]).0 as int == cs[k].0 && c@[k].1 as int == cs[k].1,
        decreases others@.len() - i,
    {
        c.push((others[i], others[i]));
        i = i + 1;
    }
    // Scan from the back so that the first of equally near candidates wins.
    let mut best: usize = c.len();
    let mut k: usize = c.len();
    proof {
        assert(nearest(cs, pos as int, k as int) == cs.len());
    }
    while k > 0
        invariant
            k <= c@.len(),
            c@.len() == cs.len(),
            forall|q: int| 0 <= q < c@.len() ==> (#[trigger] c@[q]).0 as int == cs[q].0 && c@[q].1 as int == cs[q].1,
            best as int == nearest(cs, pos as int, k as int),
        decreases k,
    {
        k = k - 1;
        let d = if c[k].0 >= pos { c[k].0 as i64 - pos as i64 } else { pos as i64 - c[k].0 as i64 };
        let take = d <= SNAP_UNITS as i64 && (best >= c.len() || {
            let b = c[best].0;
            let db = if b >= pos { b as i64 - pos as i64 } else { pos as i64 - b as i64 };
            d <= db
        });
        if take {
            best = k;
        }
    }
    proof {
        lemma_nearest(cs, pos as int, 0);
    }
    if best < c.len() {
        (c[best].0 - pos, Some(c[best].1))
    } else {
        (0, None)
    }
}

/// Snapping for a moved text: its centre to the frame centre or another
/// text's centre, its box edges to the 5 % safe margin. `half` is half the
/// text box (frame units), `others` the centres of the other visible texts.
/// Returns the correction to apply and the guides to show.
pub fn snap(moved: &TextItem, half: (i32, i32), others: &[(i32, i32)]) -> (r: (i32, i32, Guides))
    requires
        snap_defined(moved.x as int, half.0 as int, others@.map_values(|o: (i32, i32)| o.0)),
        snap_defined(moved.y as int, half.1 as int, others@.map_values(|o: (i32, i32)| o.1)),
    ensures
        r.0 as int == snap_axis(moved.x as int, half.0 as int, others@.map_values(|o: (i32, i32)| o.0)).0,
        r.1 as int == snap_axis(moved.y as int, half.1 as int, others@.map_values(|o: (i32, i32)| o.1)).0,
        r.2.x == (match snap_axis(moved.x as int, half.0 as int, others@.map_values(|o: (i32, i32)| o.0)).1 {
            Some(g) => Some(g as i32),
            None => None,
        }),
        r.2.y == (match snap_axis(moved.y as int, half.1 as int, others@.map_values(|o: (i32, i32)| o.1)).1 {
            Some(g) => Some(g as i32),
            None => None,
        }),
{
    let mut xs: Vec<i32> = Vec::new();
    let mut ys: Vec<i32> = Vec::new();
    let mut i: usize = 0;
    while i < others.len()
        invariant
            i <= others@.len(),
            xs@ == others@.take(i as int).map_values(|o: (i32, i32)| o.0),
            ys@ == others@.take(i as int).map_values(|o: (i32, i32)| o.1),
        decreases others@.len() - i,
    {
        xs.push(others[i].0);
        ys.push(others[i].1);
        proof {
            assert(xs@ =~= others@.take(i + 1).map_values(|o: (i32, i32)| o.0));
            assert(ys@ =~= others@.take(i + 1).map_values(|o: (i32, i32)| o.1));
        }
        i = i + 1;
    }
    proof {
        assert(others@.take(others@.len() as int) =~= others@);
    }
    let (dx, gx) = snap_axis_exec(moved.x, half.0, &xs);
    let (dy, gy) = snap_axis_exec(moved.y, half.1, &ys);
    (dx, dy, Guides { x: gx, y: gy })
}

/// Nudges a text by `(dx, dy)` in frame units (arrow keys).
pub fn nudge(orig: &TextItem, dx: i32, dy: i32) -> (t: TextItem)
    requires
        i32::MIN <= orig.x + dx <= i32::MAX,
        i32::MIN <= orig.y + dy <= i32::MAX,
    ensures
        t == (TextItem { x: (orig.x + dx) as i32, y: (orig.y + dy) as i32, ..*orig }),
{
    let mut t = orig.clone();
    t.x = orig.x + dx;
    t.y = orig.y + dy;
    t
}

/// Wrap width after dragging a side handle by `dx` frame units: the box
/// grows or shrinks around its centre, so by twice the drag, within the
/// allowed widths.
pub open spec fn widened(width: int, dx: int, left: bool) -> int {
    let grow = if left { -dx } else { dx };
    let w = width + 2 * grow;
    if w < TEXT_MIN_WIDTH {
        TEXT_MIN_WIDTH as int
    } else if w > 2 * FRAME_UNITS {
        2 * FRAME_UNITS
    } else {
        w
    }
}

/// A text with its side handle dragged by `dx` frame units (see
/// `widened`); nothing else changes.
pub fn widen(orig: &TextItem, dx: i32, left: bool) -> (t: TextItem)
    requires
        left ==> dx > i32::MIN,
        i32::MIN <= orig.width + 2 * (if left { -dx } else { dx as int }) <= i32::MAX,
    ensures
        t == (TextItem { width: widened(orig.width as int, dx as int, left) as i32, ..*orig }),
{
    let grow: i64 = if left { -(dx as i64) } else { dx as i64 };
    let w: i64 = orig.width as i64 + 2 * grow;
    let width: i32 = if w < TEXT_MIN_WIDTH as i64 {
        TEXT_MIN_WIDTH
    } else if w > 2 * FRAME_UNITS as i64 {
        2 * FRAME_UNITS
    } else {
        w as i32
    };
    let mut t = orig.clone();
    t.width = width;
    t
}

/// Length of a new text: four seconds.
pub open spec fn new_text_duration() -> int {
    4 * FLICKS_PER_SECOND
}

/// A new text at the playhead, or at the start when the playhead is past
/// the end of the show.
pub fn new_text(text: &str, playhead: Ticks, show_end: Ticks) -> (t: TextItem)
    ensures
        crate::text::fresh_text(
            t,
            text@,
            if playhead.0 < show_end.0 { playhead } else { Ticks(0) },
            Ticks(new_text_duration() as i64),
        ),
{
    let start = if playhead.0 < show_end.0 { playhead } else { Ticks(0) };
    TextItem::new(text.to_owned(), start, Ticks::from_seconds(4))
}

/// Applies a time delta from a lane drag: the body moves the text (never
/// before the start), the left edge moves the start with the end fixed,
/// the right edge changes the length; a text never gets shorter than the
/// minimum.
pub fn lane_drag(orig: &TextItem, gesture: LaneGesture, dt: Ticks) -> (t: TextItem)
    requires
        fits_i64(orig.start.0 + dt.0),
        fits_i64(orig.duration.0 + dt.0),
        fits_i64(orig.start.0 + orig.duration.0),
        gesture == LaneGesture::Start ==> orig.start.0 + orig.duration.0 >= text_min_duration(),
    ensures
        ({
            let end = orig.start.0 + orig.duration.0;
            let moved = orig.start.0 + dt.0;
            match gesture {
                LaneGesture::Move => t == (TextItem {
                    start: Ticks(if moved > 0 { moved as i64 } else { 0 }),
                    ..*orig
                }),
                LaneGesture::Start => {
                    let latest = end - text_min_duration();
                    let s = if moved < 0 {
                        0
                    } else if moved > latest {
                        latest
                    } else {
                        moved
                    };
                    t == (TextItem { start: Ticks(s as i64), duration: Ticks((end - s) as i64), ..*orig })
                },
                LaneGesture::End => {
                    let d = orig.duration.0 + dt.0;
                    t == (TextItem {
                        duration: Ticks(if d > text_min_duration() { d as i64 } else { text_min_duration() as i64 }),
                        ..*orig
                    })
                },
            }
        }),
{
    let mut t = orig.clone();
    let min = Ticks::from_millis(200);
    match gesture {
        LaneGesture::Move => {
            t.start = orig.start.plus(dt).max(Ticks(0));
        },
        LaneGesture::Start => {
            let end = orig.end();
            let latest = end.minus(min);
            t.start = orig.start.plus(dt).clamp(Ticks(0), latest);
            t.duration = end.minus(t.start);
        },
        LaneGesture::End => {
            t.duration = orig.duration.plus(dt).max(min);
        },
    }
    t
}

/// Whether text `i` comes before text `j` in time order: it starts
/// earlier, or at the same time and is listed first.
pub open spec fn before(texts: Seq<TextItem>, i: usize, j: usize) -> bool {
    texts[i as int].start.0 < texts[j as int].start.0 || (texts[i as int].start.0 == texts[j as int].start.0
        && i < j)
}

/// `o` lists every text once, in time order.
pub open spec fn is_time_order(texts: Seq<TextItem>, o: Seq<usize>) -> bool {
    &&& o.len() == texts.len()
    &&& forall|k: int| 0 <= k < o.len() ==> #[trigger] o[k] < texts.len()
    &&& forall|a: int, b: int| 0 <= a < b < o.len() ==> before(texts, #[trigger] o[a], #[trigger] o[b])
}

/// The texts' positions in time order.
fn time_order(texts: &[TextItem]) -> (o: Vec<usize>)
    ensures
        is_time_order(texts@, o@),
{
    let mut o: Vec<usize> = Vec::new();
    let mut k: usize = 0;
    while k < texts.len()
        invariant
            k <= texts@.len(),
            o@.len() == k,
            forall|q: int| 0 <= q < o@.len() ==> #[trigger] o@[q] < k,
            forall|a: int, b: int| 0 <= a < b < o@.len() ==> before(texts@, #[trigger] o@[a], #[trigger] o@[b]),
        decreases texts@.len() - k,
    {
        let start = texts[k].start.0;
        let mut p: usize = 0;
        while p < o.len() && texts[o[p]].start.0 <= start
            invariant
                p <= o@.len(),
                forall|q: int| 0 <= q < o@.len() ==> #[trigger] o@[q] < k,
                k < texts@.len(),
                start == texts@[k as int].start.0,
                forall|q: int| 0 <= q < p ==> texts@[#[trigger] o@[q] as int].start.0 <= start,
            decreases o@.len() - p,
        {
            p = p + 1;
        }
        let ghost prev = o@;
        o.insert(p, k);
        proof {
            assert forall|a: int, b: int| 0 <= a < b < o@.len() implies before(texts@, #[trigger] o@[a], #[trigger] o@[b]) by {
                if b < p {
                    assert(o@[a] == prev[a] && o@[b] == prev[b]);
                } else if b == p {
                    assert(o@[a] == prev[a]);
                    assert(texts@[prev[a] as int].start.0 <= start);
                } else if a < p {
                    assert(o@[a] == prev[a] && o@[b] == prev[b - 1]);
                } else if a == p {
                    assert(o@[b] == prev[b - 1]);
                    assert(p < prev.len());
                    assert(texts@[prev[p as int] as int].start.0 > start);
                    if b - 1 > p {
                        assert(before(texts@, prev[p as int], prev[b - 1]));
                    }
                } else {
                    assert(o@[a] == prev[a - 1] && o@[b] == prev[b - 1]);
                }
            }
            assert forall|q: int| 0 <= q < o@.len() implies #[trigger] o@[q] < k + 1 by {
                if q < p {
                    assert(o@[q] == prev[q]);
                } else if q > p {
                    assert(o@[q] == prev[q - 1]);
                }
            }
        }
        k = k + 1;
    }
    o
}

/// Keyboard navigation on the text lane given the time order `o`: the
/// next or previous text from `focus`, staying at either end; the first or
/// last without a focus (or with one on no text).
pub open spec fn nav(o: Seq<usize>, focus: Option<usize>, forward: bool) -> Option<usize> {
    let pos = match focus {
        Some(f) => crate::library::first_at(o, f, 0),
        None => o.len() as int,
    };
    if o.len() == 0 {
        None
    } else if pos >= o.len() {
        if forward {
            Some(o[0])
        } else {
            Some(o.last())
        }
    } else if forward {
        if pos + 1 < o.len() {
            Some(o[pos + 1])
        } else {
            Some(o[pos])
        }
    } else {
        Some(o[if pos > 0 { pos - 1 } else { 0 }])
    }
}

/// The next (`forward`) or previous text in time order from `focus`.
pub fn text_nav(texts: &[TextItem], focus: Option<usize>, forward: bool) -> (r: Option<usize>)
    ensures
        exists|o: Seq<usize>| is_time_order(texts@, o) && r == nav(o, focus, forward),
{
    let o = time_order(texts);
    let mut pos: usize = o.len();
    match focus {
        Some(f) => {
            let mut p: usize = 0;
            proof {
                crate::library::lemma_first_at(o@, f, 0);
            }
            while p < o.len() && o[p] != f
                invariant
                    p <= o@.len(),
                    crate::library::first_at(o@, f, 0) == crate::library::first_at(o@, f, p as int),
                decreases o@.len() - p,
            {
                p = p + 1;
            }
            pos = p;
        },
        None => {},
    }
    let r = if o.len() == 0 {
        None
    } else if pos >= o.len() {
        if forward {
            Some(o[0])
        } else {
            Some(o[o.len() - 1])
        }
    } else if forward {
        if pos + 1 < o.len() {
            Some(o[pos + 1])
        } else {
            Some(o[pos])
        }
    } else {
        Some(o[if pos > 0 { pos - 1 } else { 0 }])
    };
    proof {
        assert(is_time_order(texts@, o@) && r == nav(o@, focus, forward));
    }
    r
}

/// Where text `t` ends.
pub open spec fn text_end(t: TextItem) -> int {
    t.start.0 + t.duration.0
}

/// Position of the first row, from `q` on, that has ended by `start`, or
/// the number of rows.
pub open spec fn first_free(ends: Seq<int>, start: int, q: int) -> int
    decreases ends.len() - q,
{
    if q >= ends.len() || q < 0 {
        ends.len() as int
    } else if ends[q] <= start {
        q
    } else {
        first_free(ends, start, q + 1)
    }
}

/// The row a text starting at `start` takes: the first free one, a new
/// one, or the last allowed row when all are busy.
pub open spec fn row_for(ends: Seq<int>, start: int) -> int {
    let r = first_free(ends, start, 0);
    if r < MAX_TEXT_ROWS - 1 {
        r
    } else {
        MAX_TEXT_ROWS - 1
    }
}

/// Where each row ends after placing the first `k` texts of `o`.
pub open spec fn row_ends(texts: Seq<TextItem>, o: Seq<usize>, k: int) -> Seq<int>
    decreases k,
{
    if k <= 0 {
        Seq::empty()
    } else {
        let ends = row_ends(texts, o, k - 1);
        let t = texts[o[k - 1] as int];
        let r = row_for(ends, t.start.0 as int);
        if r == ends.len() {
            ends.push(text_end(t))
        } else if ends[r] >= text_end(t) {
            ends
        } else {
            ends.update(r, text_end(t))
        }
    }
}

/// The row of every text after placing the first `k` texts of `o`.
pub open spec fn rows_after(texts: Seq<TextItem>, o: Seq<usize>, k: int) -> Seq<usize>
    decreases k,
{
    if k <= 0 {
        Seq::new(texts.len(), |i: int| 0usize)
    } else {
        let t = o[k - 1];
        rows_after(texts, o, k - 1).update(
            t as int,
            row_for(row_ends(texts, o, k - 1), texts[t as int].start.0 as int) as usize,
        )
    }
}

proof fn lemma_rows_len(texts: Seq<TextItem>, o: Seq<usize>, k: int)
    requires
        is_time_order(texts, o),
        k <= o.len(),
    ensures
        rows_after(texts, o, k).len() == texts.len(),
    decreases k,
{
    if k > 0 {
        lemma_rows_len(texts, o, k - 1);
        assert(o[k - 1] < texts.len());
    }
}

proof fn lemma_row_ends_len(texts: Seq<TextItem>, o: Seq<usize>, k: int)
    requires
        0 <= k,
    ensures
        row_ends(texts, o, k).len() <= MAX_TEXT_ROWS,
        row_ends(texts, o, k).len() <= k,
    decreases k,
{
    if k > 0 {
        lemma_row_ends_len(texts, o, k - 1);
        let ends = row_ends(texts, o, k - 1);
        lemma_first_free(ends, texts[o[k - 1] as int].start.0 as int, 0);
    }
}

proof fn lemma_first_free(ends: Seq<int>, start: int, q: int)
    requires
        0 <= q <= ends.len(),
    ensures
        q <= first_free(ends, start, q) <= ends.len(),
    decreases ends.len() - q,
{
    if q < ends.len() {
        lemma_first_free(ends, start, q + 1);
    }
}

/// Row per text so overlapping items do not hide each other: in time
/// order, each takes the first row whose texts have ended by its start, a
/// new row, or when all allowed rows are busy the last one.
pub fn text_rows(texts: &[TextItem]) -> (rows: Vec<usize>)
    requires
        forall|i: int| 0 <= i < texts@.len() ==> fits_i64(#[trigger] text_end(texts@[i])),
    ensures
        exists|o: Seq<usize>| is_time_order(texts@, o) && rows@ == rows_after(texts@, o, o.len() as int),
{
    let o = time_order(texts);
    let mut rows: Vec<usize> = Vec::new();
    let mut i: usize = 0;
    while i < texts.len()
        invariant
            i <= texts@.len(),
            rows@ == Seq::new(i as nat, |j: int| 0usize),
        decreases texts@.len() - i,
    {
        rows.push(0);
        proof {
            assert(rows@ =~= Seq::new((i + 1) as nat, |j: int| 0usize));
        }
        i = i + 1;
    }
    let mut ends: Vec<i64> = Vec::new();
    let mut k: usize = 0;
    proof {
        assert(rows@ =~= rows_after(texts@, o@, 0));
    }
    while k < o.len()
        invariant
            k <= o@.len(),
            is_time_order(texts@, o@),
            forall|i: int| 0 <= i < texts@.len() ==> fits_i64(#[trigger] text_end(texts@[i])),
            rows@ == rows_after(texts@, o@, k as int),
            ends@.len() == row_ends(texts@, o@, k as int).len(),
            forall|q: int| 0 <= q < ends@.len() ==> ends@[q] as int == #[trigger] row_ends(texts@, o@, k as int)[q],
        decreases o@.len() - k,
    {
        let ghost spec_ends = row_ends(texts@, o@, k as int);
        let ti = o[k];
        let t = &texts[ti];
        let start = t.start.0;
        proof {
            assert(fits_i64(text_end(texts@[ti as int])));
            lemma_row_ends_len(texts@, o@, k as int);
            lemma_first_free(spec_ends, start as int, 0);
            lemma_rows_len(texts@, o@, k as int);
            assert(o@[k as int] < texts@.len());
        }
        let mut r: usize = 0;
        while r < ends.len() && ends[r] > start
            invariant
                r <= ends@.len(),
                ends@.len() == spec_ends.len(),
                forall|q: int| 0 <= q < ends@.len() ==> ends@[q] as int == #[trigger] spec_ends[q],
                first_free(spec_ends, start as int, 0) == first_free(spec_ends, start as int, r as int),
            decreases ends@.len() - r,
        {
            r = r + 1;
        }
        if r > MAX_TEXT_ROWS - 1 {
            r = MAX_TEXT_ROWS - 1;
        }
        let end = t.start.0 + t.duration.0;
        if r == ends.len() {
            ends.push(end);
        } else if ends[r] < end {
            ends.set(r, end);
        }
        rows.set(ti, r);
        proof {
            let next = row_ends(texts@, o@, k + 1);
            assert(next.len() == ends@.len());
            assert forall|q: int| 0 <= q < ends@.len() implies ends@[q] as int == #[trigger] next[q] by {}
        }
        k = k + 1;
    }
    proof {
        assert(is_time_order(texts@, o@) && rows@ == rows_after(texts@, o@, o@.len() as int));
    }
    rows
}

} // verus!

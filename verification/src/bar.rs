//! The status bar's geometry: the nine square tag cells at the left, the
//! occupancy marks, the digit label positions, the focused-window title
//! position, and the right-justified status text. Everything here is pure
//! arithmetic; the caller draws the rectangles and text it is handed.

use vstd::prelude::*;

use crate::state::StateHandler;
use crate::state::TAG_COUNT;

verus! {

/// An axis-aligned rectangle, as the X fill requests take it.
#[derive(Clone, Copy, PartialEq, Eq, Structural, Debug)]
pub struct Rect {
    pub x: i16,
    pub y: i16,
    pub width: u16,
    pub height: u16,
}

/// The bar is one and a half times the font's ascent tall, rounded up.
pub fn bar_height(font_ascent: u16) -> (r: u16)
    requires
        font_ascent <= 21845,
    ensures
        r as int == (3 * font_ascent + 1) / 2,
{
    (((font_ascent as u32) * 3 + 1) / 2) as u16
}

/// The title the bar shows for a window: the UTF-8 name when it is
/// non-empty, else the legacy name (which the caller leaves empty when the
/// window has neither).
pub fn choose_window_title(net_name: String, wm_name: String) -> (r: String)
    ensures
        r@ == (if net_name@.len() > 0 {
            net_name@
        } else {
            wm_name@
        }),
{
    if net_name.as_str().unicode_len() > 0 {
        net_name
    } else {
        wm_name
    }
}

/// The square cell of tag number `x` (numbered from one), in a bar of
/// height `h`.
pub open spec fn spec_tag_rectangle(h: u16, x: int) -> Rect {
    Rect { x: (h * (x - 1)) as i16, y: 0, width: h, height: h }
}

/// The small occupancy square drawn inside the cell of tag number `x`.
pub open spec fn spec_tag_mark(h: u16, x: int) -> Rect {
    Rect {
        x: (h * (x - 1) + h / 9) as i16,
        y: (h / 9) as i16,
        width: h / 7,
        height: h / 7,
    }
}

/// A bar short enough that the ninth cell's position still fits a signed
/// 16-bit coordinate.
pub open spec fn bar_fits(h: u16) -> bool {
    h <= 3276
}

/// The left edge of the cell of tag number `x`.
fn cell_x(h: u16, x: usize) -> (r: u16)
    requires
        1 <= x <= TAG_COUNT,
        bar_fits(h),
    ensures
        r as int == h * (x - 1),
        r <= 26208,
{
    proof {
        assert(h as int * (x as int - 1) <= h as int * 8) by (nonlinear_arith)
            requires
                1 <= x as int <= 9,
                h as int >= 0,
        ;
    }
    h * (x as u16 - 1)
}

/// The square cell of tag number `x` in a bar of height `h`.
pub fn create_tag_rectangle(h: u16, x: usize) -> (r: Rect)
    requires
        1 <= x <= TAG_COUNT,
        bar_fits(h),
    ensures
        r == spec_tag_rectangle(h, x as int),
{
    Rect { x: cell_x(h, x) as i16, y: 0, width: h, height: h }
}

/// The occupancy square of tag number `x` in a bar of height `h`.
fn create_tag_mark(h: u16, x: usize) -> (r: Rect)
    requires
        1 <= x <= TAG_COUNT,
        bar_fits(h),
    ensures
        r == spec_tag_mark(h, x as int),
{
    Rect {
        x: (cell_x(h, x) + h / 9) as i16,
        y: (h / 9) as i16,
        width: h / 7,
        height: h / 7,
    }
}

/// The cells of the tags other than the active one, numbered `from..=9`.
pub open spec fn inactive_cells_from(active: int, h: u16, from: int) -> Seq<Rect>
    decreases TAG_COUNT + 1 - from,
{
    if from > TAG_COUNT {
        Seq::empty()
    } else {
        (if from != active + 1 {
            seq![spec_tag_rectangle(h, from)]
        } else {
            Seq::empty()
        }) + inactive_cells_from(active, h, from + 1)
    }
}

/// The occupancy marks of the inactive tags holding at least one window,
/// numbered `from..=9`.
pub open spec fn occupied_marks_from(s: &StateHandler, h: u16, from: int) -> Seq<Rect>
    decreases TAG_COUNT + 1 - from,
{
    if from > TAG_COUNT {
        Seq::empty()
    } else {
        (if from != s.active_tag + 1 && s.tags@[from - 1].windows@.len() > 0 {
            seq![spec_tag_mark(h, from)]
        } else {
            Seq::empty()
        }) + occupied_marks_from(s, h, from + 1)
    }
}

/// Everything the bar drawing pass needs, computed from the store: the
/// filled cells and marks, where each tag digit goes (and whether it is
/// drawn inverted), and where the focused window's title starts.
pub struct BarLayout {
    pub inactive_cells: Vec<Rect>,
    pub occupied_marks: Vec<Rect>,
    pub active_cell: Rect,
    pub active_mark: Option<Rect>,
    pub digit_x: Vec<i16>,
    pub text_y: i16,
    pub title_x: i16,
}

/// The x position of the digit label of tag number `x`.
pub open spec fn spec_digit_x(h: u16, font_width: u16, x: int) -> int {
    h * (x - 1) + (h / 2 - font_width / 2)
}

/// Computes the whole bar layout for the current state: cells for the eight
/// inactive tags, marks for the inactive tags holding windows, the active
/// cell with its mark when the active tag holds windows, the nine digit
/// positions and the title position.
pub fn bar_layout(s: &StateHandler, h: u16, font_ascent: u16, font_width: u16) -> (r: BarLayout)
    requires
        s.wf(),
        bar_fits(h),
        font_width <= h,
    ensures
        r.inactive_cells@ == inactive_cells_from(s.active_tag as int, h, 1),
        r.occupied_marks@ == occupied_marks_from(s, h, 1),
        r.active_cell == spec_tag_rectangle(h, s.active_tag as int + 1),
        r.active_mark == (if s.active_windows().len() > 0 {
            Some(spec_tag_mark(h, s.active_tag as int + 1))
        } else {
            None::<Rect>
        }),
        r.digit_x@.len() == TAG_COUNT,
        forall|x: int|
            1 <= x <= TAG_COUNT ==> #[trigger] r.digit_x@[x - 1] as int == spec_digit_x(
                h,
                font_width,
                x,
            ),
        r.text_y as int == h / 2 + (font_ascent / 5) * 2,
        r.title_x as int == h * 9 + h / 2,
{
    let active = s.active_tag;
    let mut inactive_cells: Vec<Rect> = Vec::new();
    let mut occupied_marks: Vec<Rect> = Vec::new();
    let mut digit_x: Vec<i16> = Vec::new();
    let mut x: usize = 1;
    while x <= TAG_COUNT
        invariant
            1 <= x <= TAG_COUNT + 1,
            s.wf(),
            bar_fits(h),
            font_width <= h,
            active == s.active_tag,
            inactive_cells_from(active as int, h, 1) == inactive_cells@ + inactive_cells_from(
                active as int,
                h,
                x as int,
            ),
            occupied_marks_from(s, h, 1) == occupied_marks@ + occupied_marks_from(s, h, x as int),
            digit_x@.len() == x - 1,
            forall|j: int|
                1 <= j < x ==> #[trigger] digit_x@[j - 1] as int == spec_digit_x(h, font_width, j),
        decreases TAG_COUNT + 1 - x,
    {
        if x != active + 1 {
            inactive_cells.push(create_tag_rectangle(h, x));
            if self_tag_occupied(s, x - 1) {
                occupied_marks.push(create_tag_mark(h, x));
            }
        }
        proof {
            vstd::arithmetic::div_mod::lemma_div_is_ordered(
                font_width as int,
                h as int,
                2,
            );
        }
        digit_x.push((cell_x(h, x) + (h / 2 - font_width / 2)) as i16);
        proof {
            assert(inactive_cells_from(active as int, h, 1) =~= inactive_cells@
                + inactive_cells_from(active as int, h, x as int + 1));
            assert(occupied_marks_from(s, h, 1) =~= occupied_marks@ + occupied_marks_from(
                s,
                h,
                x as int + 1,
            ));
        }
        x = x + 1;
    }
    proof {
        assert(inactive_cells_from(active as int, h, x as int) =~= Seq::<Rect>::empty());
        assert(occupied_marks_from(s, h, x as int) =~= Seq::<Rect>::empty());
        assert(inactive_cells@ =~= inactive_cells_from(active as int, h, 1));
        assert(occupied_marks@ =~= occupied_marks_from(s, h, 1));
    }
    let active_cell = create_tag_rectangle(h, active + 1);
    let active_mark: Option<Rect> = if self_tag_occupied(s, active) {
        Some(create_tag_mark(h, active + 1))
    } else {
        None
    };
    BarLayout {
        inactive_cells,
        occupied_marks,
        active_cell,
        active_mark,
        digit_x,
        text_y: (h / 2 + (font_ascent / 5) * 2) as i16,
        title_x: (h * 9 + h / 2) as i16,
    }
}

/// Whether tag `t` holds at least one window.
fn self_tag_occupied(s: &StateHandler, t: usize) -> (r: bool)
    requires
        t < s.tags@.len(),
    ensures
        r == (s.tags@[t as int].windows@.len() > 0),
{
    self_tag_len(s, t) > 0
}

/// The number of windows tag `t` holds.
fn self_tag_len(s: &StateHandler, t: usize) -> (r: usize)
    requires
        t < s.tags@.len(),
    ensures
        r == s.tags@[t as int].windows@.len(),
{
    s.tags[t].windows.len()
}

/// Where the right-justified status text goes, and from where the bar must
/// be cleared before drawing it: the text ends at the bar's right edge, and
/// the cleared strip starts five character cells earlier than the text.
pub fn status_text_origin(
    bar_width: u16,
    bar_height: u16,
    text_len: usize,
    font_width: u16,
    font_ascent: u16,
) -> (r: (i16, i16, i16))
    requires
        bar_width <= 32767,
        bar_height <= 32767,
        text_len <= 400,
        font_width <= 64,
        font_ascent <= 21845,
    ensures
        r.0 as int == bar_width - (text_len + 5) * font_width,
        r.1 as int == bar_width - text_len * font_width,
        r.2 as int == bar_height as int / 2 + font_ascent / 3,
{
    proof {
        assert((text_len as int + 5) * (font_width as int) <= 405 * 64) by (nonlinear_arith)
            requires
                0 <= text_len as int <= 400,
                0 <= font_width as int <= 64,
        ;
        assert((text_len as int) * (font_width as int) <= 400 * 64) by (nonlinear_arith)
            requires
                0 <= text_len as int <= 400,
                0 <= font_width as int <= 64,
        ;
        assert((text_len as int) * (font_width as int) >= 0) by (nonlinear_arith)
            requires
                0 <= text_len as int,
                0 <= font_width as int,
        ;
        assert((text_len as int + 5) * (font_width as int) >= 0) by (nonlinear_arith)
            requires
                0 <= text_len as int,
                0 <= font_width as int,
        ;
    }
    let span: i64 = (text_len as i64 + 5) * (font_width as i64);
    let clear_x: i64 = bar_width as i64 - span;
    let text_x: i64 = bar_width as i64 - (text_len as i64) * (font_width as i64);
    let text_y: i64 = (bar_height as i64) / 2 + (font_ascent as i64) / 3;
    ((clear_x as i16), (text_x as i16), (text_y as i16))
}

} // verus!

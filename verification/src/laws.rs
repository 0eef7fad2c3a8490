//! The library-wide laws, stated as proof functions over the same spec
//! functions the operation contracts use: membership uniqueness, focus
//! validity, master uniqueness after a refresh, and the coverage and
//! determinism of the tiler.

use vstd::prelude::*;

use crate::state::classified_windows;
use crate::state::clamp_ratio;
use crate::state::count_stack_prefix;
use crate::state::ids_disjoint;
use crate::state::narrow_width;
use crate::state::stack_total;
use crate::state::tag_has_client;
use crate::state::tiled_geometry;
use crate::state::with_active_tag;
use crate::state::StateHandler;
use crate::state::TAG_COUNT;
use crate::state::TilingInfo;
use crate::state::WindowGroup;
use crate::state::WindowState;
use crate::state::RATIO_MAX;
use crate::state::RATIO_MIN;

verus! {

/// Tag membership uniqueness: in a well-formed store a client id appears in
/// at most one tag's window list, and only once there.
pub proof fn lemma_tag_membership_unique(
    s: &StateHandler,
    t1: int,
    i1: int,
    t2: int,
    i2: int,
)
    requires
        s.wf(),
        0 <= t1 < s.tags@.len(),
        0 <= i1 < s.tags@[t1].windows@.len(),
        0 <= t2 < s.tags@.len(),
        0 <= i2 < s.tags@[t2].windows@.len(),
        s.tags@[t1].windows@[i1].window == s.tags@[t2].windows@[i2].window,
    ensures
        t1 == t2,
        i1 == i2,
{
    if t1 != t2 || i1 != i2 {
        assert(ids_disjoint(s.tags@[t1].windows@[i1], s.tags@[t2].windows@[i2]));
    }
}

/// Focus validity: in a well-formed store a tag's focus, when set, is the
/// client id of a member of that tag's window list.
pub proof fn lemma_focus_valid(s: &StateHandler, t: int)
    requires
        s.wf(),
        0 <= t < s.tags@.len(),
        s.tags@[t].focus is Some,
    ensures
        tag_has_client(s.tags@[t], s.tags@[t].focus.unwrap()),
{
}

/// Master uniqueness: when the classification pass runs on a list whose tail
/// is not Floating, exactly one window comes out Master, and it is the tail.
pub proof fn lemma_classified_master_unique(ws: Seq<WindowState>)
    requires
        ws.len() > 0,
        ws.last().group != WindowGroup::Floating,
    ensures
        classified_windows(ws).last().group == WindowGroup::Master,
        forall|i: int|
            0 <= i < ws.len() - 1 ==> (#[trigger] classified_windows(ws)[i]).group
                != WindowGroup::Master,
{
}

/// Master uniqueness carried through a whole refresh: the tiler preserves
/// every window's group, so after classify-then-tile the tail is the one
/// Master.
pub proof fn lemma_master_unique_after_refresh(
    ws: Seq<WindowState>,
    post: Seq<WindowState>,
    ti: TilingInfo,
)
    requires
        ws.len() > 0,
        ws.last().group != WindowGroup::Floating,
        post.len() == ws.len(),
        forall|i: int|
            0 <= i < ws.len() ==> tiled_geometry(
                classified_windows(ws)[i],
                #[trigger] post[i],
                ti,
                count_stack_prefix(classified_windows(ws), i),
                stack_total(classified_windows(ws)),
            ),
    ensures
        post.last().group == WindowGroup::Master,
        forall|i: int| 0 <= i < ws.len() - 1 ==> (#[trigger] post[i]).group != WindowGroup::Master,
{
    lemma_classified_master_unique(ws);
    let n = ws.len() as int;
    assert(tiled_geometry(
        classified_windows(ws)[n - 1],
        post[n - 1],
        ti,
        count_stack_prefix(classified_windows(ws), n - 1),
        stack_total(classified_windows(ws)),
    ));
    assert forall|i: int| 0 <= i < n - 1 implies (#[trigger] post[i]).group
        != WindowGroup::Master by {
        assert(tiled_geometry(
            classified_windows(ws)[i],
            post[i],
            ti,
            count_stack_prefix(classified_windows(ws), i),
            stack_total(classified_windows(ws)),
        ));
    }
}

/// Tiler determinism: the geometry relation pins every field of the output,
/// so two runs on identical inputs agree window for window.
pub proof fn lemma_tiler_deterministic(
    ws: Seq<WindowState>,
    ti: TilingInfo,
    post1: Seq<WindowState>,
    post2: Seq<WindowState>,
)
    requires
        post1.len() == ws.len(),
        post2.len() == ws.len(),
        forall|i: int|
            0 <= i < ws.len() ==> tiled_geometry(
                ws[i],
                #[trigger] post1[i],
                ti,
                count_stack_prefix(ws, i),
                stack_total(ws),
            ),
        forall|i: int|
            0 <= i < ws.len() ==> tiled_geometry(
                ws[i],
                #[trigger] post2[i],
                ti,
                count_stack_prefix(ws, i),
                stack_total(ws),
            ),
    ensures
        post1 == post2,
{
    assert forall|i: int| 0 <= i < ws.len() implies post1[i] == post2[i] by {
        assert(tiled_geometry(ws[i], post1[i], ti, count_stack_prefix(ws, i), stack_total(ws)));
        assert(tiled_geometry(ws[i], post2[i], ti, count_stack_prefix(ws, i), stack_total(ws)));
    }
    assert(post1 =~= post2);
}

/// The open rectangles of `a` and `b` share no point: one ends, along some
/// axis, before the other begins.
pub open spec fn rects_disjoint(a: WindowState, b: WindowState) -> bool {
    ||| a.x as int + a.width as int <= b.x as int
    ||| b.x as int + b.width as int <= a.x as int
    ||| a.y as int + a.height as int <= b.y as int
    ||| b.y as int + b.height as int <= a.y as int
}

/// The rectangle of `v` lies inside the work area: right of the left gap,
/// left of the right gap, below the bar and its gap, above the bottom gap.
pub open spec fn rect_within_workarea(v: WindowState, ti: TilingInfo) -> bool {
    &&& ti.gap <= v.x as int
    &&& v.x as int + v.width as int <= ti.width - ti.gap
    &&& ti.gap + ti.bar_height <= v.y as int
    &&& v.y as int + v.height as int <= ti.height - ti.gap
}

/// In a list whose tail is the Master and whose other windows are all Stack,
/// the Stack windows sit at their own indices.
proof fn lemma_count_prefix_canonical(ws: Seq<WindowState>, i: int)
    requires
        ws.len() >= 1,
        forall|j: int| 0 <= j < ws.len() - 1 ==> (#[trigger] ws[j]).group == WindowGroup::Stack,
        ws.last().group == WindowGroup::Master,
        0 <= i <= ws.len(),
    ensures
        i <= ws.len() - 1 ==> count_stack_prefix(ws, i) == i,
        i == ws.len() ==> count_stack_prefix(ws, i) == i - 1,
    decreases i,
{
    if i > 0 {
        lemma_count_prefix_canonical(ws, i - 1);
    }
}

/// Tiler total coverage: on a tag of n non-Floating windows in canonical
/// order (the tail Master, the rest Stack), and with every stack slot tall
/// enough to pay the bar allowance, no two of the computed rectangles
/// overlap and each lies inside the gap-and-bar work area.
pub proof fn lemma_tiler_coverage(ws: Seq<WindowState>, post: Seq<WindowState>, ti: TilingInfo)
    requires
        ti.wf(),
        ws.len() >= 1,
        forall|j: int| 0 <= j < ws.len() - 1 ==> (#[trigger] ws[j]).group == WindowGroup::Stack,
        ws.last().group == WindowGroup::Master,
        ws.len() >= 2 ==> ti.height as int / (ws.len() - 1) as int >= 2 * ti.gap + ti.bar_height,
        post.len() == ws.len(),
        forall|i: int|
            0 <= i < ws.len() ==> tiled_geometry(
                ws[i],
                #[trigger] post[i],
                ti,
                count_stack_prefix(ws, i),
                stack_total(ws),
            ),
    ensures
        forall|i: int, j: int| 0 <= i < j < ws.len() ==> rects_disjoint(post[i], post[j]),
        forall|i: int| 0 <= i < ws.len() ==> rect_within_workarea(post[i], ti),
{
    let n = ws.len() as int;
    let s = n - 1;
    let gap = ti.gap as int;
    let bar = ti.bar_height as int;
    let wd = ti.width as int;
    let ht = ti.height as int;
    lemma_count_prefix_canonical(ws, n);
    assert(stack_total(ws) == s);
    assert forall|i: int| 0 <= i < n - 1 implies count_stack_prefix(ws, i) == i by {
        lemma_count_prefix_canonical(ws, i);
    }
    crate::state::lemma_column_bounds(ti);
    let narrow = narrow_width(ti);
    let stack_w = wd * ti.ratio as int / 1000;

    // The two column widths never spill past the screen together.
    assert(narrow + stack_w <= wd) by {
        let a = wd * (1000 - ti.ratio as int);
        let b = wd * ti.ratio as int;
        vstd::arithmetic::div_mod::lemma_fundamental_div_mod(a, 1000);
        vstd::arithmetic::div_mod::lemma_mod_division_less_than_divisor(a, 1000);
        vstd::arithmetic::div_mod::lemma_fundamental_div_mod(b, 1000);
        vstd::arithmetic::div_mod::lemma_mod_division_less_than_divisor(b, 1000);
        assert(wd * (1000 - ti.ratio as int) + wd * (ti.ratio as int) == wd * 1000)
            by (nonlinear_arith);
        assert(1000 * (narrow + stack_w) <= a + b);
        assert(narrow + stack_w <= wd) by (nonlinear_arith)
            requires
                1000 * (narrow + stack_w) <= wd * 1000,
        ;
    }
    if s >= 1 {
        let h_slot = ht / s;
        vstd::arithmetic::div_mod::lemma_fundamental_div_mod(ht, s);
        vstd::arithmetic::div_mod::lemma_mod_division_less_than_divisor(ht, s);
        assert(s * h_slot <= ht);
        vstd::arithmetic::div_mod::lemma_div_nonincreasing(ht, s);
        vstd::arithmetic::div_mod::lemma_div_pos_is_pos(ht, s);
        assert(h_slot >= 2 * gap + bar);
        // Every stack window's vertical strip: y(i) to y(i) + h(i).
        assert forall|i: int| 0 <= i < n - 1 implies rect_within_workarea(post[i], ti) by {
            assert(tiled_geometry(ws[i], post[i], ti, i, s));
            if i >= 1 {
                assert(h_slot <= i * h_slot) by (nonlinear_arith)
                    requires
                        i >= 1,
                        h_slot >= 0,
                ;
                assert((i + 1) * h_slot <= s * h_slot) by (nonlinear_arith)
                    requires
                        i + 1 <= s,
                        h_slot >= 0,
                ;
                assert((i + 1) * h_slot == i * h_slot + h_slot) by (nonlinear_arith);
            }
        }
        assert forall|i: int, j: int| 0 <= i < j < n - 1 implies rects_disjoint(
            post[i],
            post[j],
        ) by {
            assert(tiled_geometry(ws[i], post[i], ti, i, s));
            assert(tiled_geometry(ws[j], post[j], ti, j, s));
            if i == 0 {
                assert(h_slot <= j * h_slot) by (nonlinear_arith)
                    requires
                        j >= 1,
                        h_slot >= 0,
                ;
            } else {
                assert((i + 1) * h_slot <= j * h_slot) by (nonlinear_arith)
                    requires
                        i + 1 <= j,
                        h_slot >= 0,
                ;
                assert((i + 1) * h_slot == i * h_slot + h_slot) by (nonlinear_arith);
            }
        }
        // The master column ends left of the stack column.
        assert(tiled_geometry(ws[n - 1], post[n - 1], ti, count_stack_prefix(ws, n - 1), s));
        assert forall|i: int| 0 <= i < n - 1 implies rects_disjoint(#[trigger] post[i], post[n - 1]) by {
            assert(tiled_geometry(ws[i], post[i], ti, i, s));
        }
    } else {
        assert(tiled_geometry(ws[0], post[0], ti, count_stack_prefix(ws, 0), 0));
    }
}

/// Tiler total coverage, stated against a whole refresh: on a tag whose
/// windows are all non-Floating, the classification pass leaves the tail
/// Master and the rest Stack, so the tiled output covers the work area
/// without overlaps whenever every stack slot can pay the bar allowance.
pub proof fn lemma_refresh_coverage(ws: Seq<WindowState>, post: Seq<WindowState>, ti: TilingInfo)
    requires
        ti.wf(),
        ws.len() >= 1,
        forall|j: int| 0 <= j < ws.len() ==> (#[trigger] ws[j]).group != WindowGroup::Floating,
        ws.len() >= 2 ==> ti.height as int / (ws.len() - 1) as int >= 2 * ti.gap + ti.bar_height,
        post.len() == ws.len(),
        forall|i: int|
            0 <= i < ws.len() ==> tiled_geometry(
                classified_windows(ws)[i],
                #[trigger] post[i],
                ti,
                count_stack_prefix(classified_windows(ws), i),
                stack_total(classified_windows(ws)),
            ),
    ensures
        forall|i: int, j: int| 0 <= i < j < ws.len() ==> rects_disjoint(post[i], post[j]),
        forall|i: int| 0 <= i < ws.len() ==> rect_within_workarea(post[i], ti),
{
    let cls = classified_windows(ws);
    assert(cls.len() == ws.len());
    assert forall|j: int| 0 <= j < cls.len() - 1 implies (#[trigger] cls[j]).group
        == WindowGroup::Stack by {
        assert(ws[j].group != WindowGroup::Floating);
    }
    assert(ws.last().group != WindowGroup::Floating);
    assert(cls.last().group == WindowGroup::Master);
    lemma_tiler_coverage(cls, post, ti);
}

/// The ratio clamp keeps every nudge inside the allowed band.
pub proof fn lemma_ratio_clamp_in_band(r: int)
    ensures
        RATIO_MIN <= clamp_ratio(r) <= RATIO_MAX,
{
}

/// Tag switch round trip: switching to `a`, then `b`, then `a` again leaves
/// every tag's window list exactly as it was — a tag switch only moves the
/// active index.
pub proof fn lemma_tag_switch_round_trip(s: StateHandler, a: usize, b: usize)
    ensures
        with_active_tag(with_active_tag(with_active_tag(s, a), b), a).tags == s.tags,
        with_active_tag(with_active_tag(with_active_tag(s, a), b), a) == with_active_tag(s, a),
{
}

/// The tag one step forward, wrapping from the last tag to the first.
pub open spec fn next_tag(t: int) -> int {
    (t + 1) % (TAG_COUNT as int)
}

/// One wrapped step, taken from an already-wrapped position, lands where a
/// plain increment would.
proof fn lemma_next_tag_step(x: int)
    requires
        0 <= x,
    ensures
        next_tag(x % (TAG_COUNT as int)) == (x + 1) % (TAG_COUNT as int),
{
    let n = TAG_COUNT as int;
    vstd::arithmetic::div_mod::lemma_small_mod(1nat, n as nat);
    vstd::arithmetic::div_mod::lemma_add_mod_noop(x, 1, n);
    vstd::arithmetic::div_mod::lemma_mod_twice(x, n);
}

/// Tag wrap: nine forward steps from any tag return to it.
pub proof fn lemma_tag_wrap(t: int)
    requires
        0 <= t < TAG_COUNT,
    ensures
        next_tag(
            next_tag(
                next_tag(next_tag(next_tag(next_tag(next_tag(next_tag(next_tag(t))))))),
            ),
        ) == t,
{
    let n = TAG_COUNT as int;
    vstd::arithmetic::div_mod::lemma_small_mod(t as nat, n as nat);
    assert(t % n == t);
    lemma_next_tag_step(t);
    lemma_next_tag_step(t + 1);
    lemma_next_tag_step(t + 2);
    lemma_next_tag_step(t + 3);
    lemma_next_tag_step(t + 4);
    lemma_next_tag_step(t + 5);
    lemma_next_tag_step(t + 6);
    lemma_next_tag_step(t + 7);
    lemma_next_tag_step(t + 8);
    vstd::arithmetic::div_mod::lemma_mod_add_multiples_vanish(t, n);
    assert((t + 9) % n == t % n);
}

} // verus!

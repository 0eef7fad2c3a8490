//! The authoritative window-manager state: nine tags, each holding an ordered
//! list of managed windows and an optional focused client, plus the tiling
//! parameters. The list order is meaningful: the tail of a tag's list is its
//! master window.

use vstd::prelude::*;

verus! {

/// Layout role of a managed client within its tag.
#[derive(Clone, Copy, PartialEq, Eq, Structural, Debug)]
pub enum WindowGroup {
    Master,
    Stack,
    Floating,
}

/// One managed client: its own window id, the frame window the manager wraps
/// it in, and the geometry last assigned by the tiler or the fullscreen
/// handler.
#[derive(Clone, Copy, PartialEq, Eq, Structural, Debug)]
pub struct WindowState {
    pub window: u32,
    pub frame_window: u32,
    pub x: i16,
    pub y: i16,
    pub width: u16,
    pub height: u16,
    pub group: WindowGroup,
}

impl WindowState {
    /// A freshly adopted client: placeholder geometry, classified Stack until
    /// the next refresh decides its role.
    pub fn new(window: u32, frame_window: u32) -> (r: WindowState)
        ensures
            r == (WindowState {
                window,
                frame_window,
                x: 0,
                y: 0,
                width: 100,
                height: 100,
                group: WindowGroup::Stack,
            }),
    {
        WindowState {
            window,
            frame_window,
            x: 0,
            y: 0,
            width: 100,
            height: 100,
            group: WindowGroup::Stack,
        }
    }

    /// Renders the record as one line of diagnostic text.
    /// Relies on std's `format!`; nothing is claimed about the text.
    #[verifier::external_body]
    pub fn print(&self) -> String {
        format!(
            "id {} fid {} x {} y {} w {} h {} g {:?}",
            self.window, self.frame_window, self.x, self.y, self.width, self.height, self.group,
        )
    }
}

/// The two ids of `a` are distinct from the two ids of `b`.
pub open spec fn ids_disjoint(a: WindowState, b: WindowState) -> bool {
    &&& a.window != b.window
    &&& a.window != b.frame_window
    &&& a.frame_window != b.window
    &&& a.frame_window != b.frame_window
}

/// One virtual desktop: an ordered window list (the tail is the master) and
/// the focused client, if any.
pub struct Tag {
    pub tag: usize,
    pub focus: Option<u32>,
    pub windows: Vec<WindowState>,
}

/// `id` is the client id of some member of the tag's window list.
pub open spec fn tag_has_client(t: Tag, id: u32) -> bool {
    exists|k: int| 0 <= k < t.windows@.len() && (#[trigger] t.windows@[k]).window == id
}

/// The tag's focus, if set, names a member of its window list.
pub open spec fn tag_focus_ok(t: Tag) -> bool {
    match t.focus {
        Some(id) => tag_has_client(t, id),
        None => true,
    }
}

impl Tag {
    pub fn new(tag: usize) -> (r: Tag)
        ensures
            r.tag == tag,
            r.focus is None,
            r.windows@ == Seq::<WindowState>::empty(),
    {
        Tag { tag, focus: None, windows: Vec::new() }
    }
}

/// Static tiling parameters. The master/stack ratio is kept in thousandths,
/// so a ratio of one half is 500.
pub struct TilingInfo {
    pub gap: u16,
    pub ratio: u32,
    pub width: u16,
    pub height: u16,
    pub bar_height: u16,
}

pub const RATIO_MIN: u32 = 150;

pub const RATIO_MAX: u32 = 850;

impl TilingInfo {
    /// The screen is large enough for the layout arithmetic: coordinates fit
    /// the X protocol's signed 16-bit fields, the narrowest master column
    /// still holds its two gaps, and a bar and two gaps fit the height.
    pub open spec fn wf(&self) -> bool {
        &&& RATIO_MIN <= self.ratio <= RATIO_MAX
        &&& self.width <= 32767
        &&& self.height <= 32767
        &&& 2 * self.gap <= self.width * (1000 - RATIO_MAX) / 1000
        &&& 2 * self.gap + self.bar_height <= self.height
    }
}

/// The whole manager state: the nine tags, the active tag index and the
/// tiling parameters.
pub struct StateHandler {
    pub tags: Vec<Tag>,
    pub active_tag: usize,
    pub tiling: TilingInfo,
}

pub const TAG_COUNT: usize = 9;

impl StateHandler {
    /// No client id or frame id occurs twice anywhere in the store, and no
    /// client id collides with a frame id.
    pub open spec fn ids_unique(&self) -> bool {
        &&& forall|t1: int, i1: int, t2: int, i2: int|
            0 <= t1 < self.tags@.len() && 0 <= i1 < self.tags@[t1].windows@.len() && 0 <= t2
                < self.tags@.len() && 0 <= i2 < self.tags@[t2].windows@.len() && (t1 != t2 || i1
                != i2) ==> ids_disjoint(
                #[trigger] self.tags@[t1].windows@[i1],
                #[trigger] self.tags@[t2].windows@[i2],
            )
        &&& forall|t: int, i: int|
            0 <= t < self.tags@.len() && 0 <= i < self.tags@[t].windows@.len() ==> (
            #[trigger] self.tags@[t].windows@[i]).window != self.tags@[t].windows@[i].frame_window
    }

    /// The store's invariant: nine tags numbered in order, a valid active tag,
    /// well-formed tiling parameters, every focus naming a member of its tag,
    /// and globally unique window ids.
    pub open spec fn wf(&self) -> bool {
        &&& self.tags@.len() == TAG_COUNT
        &&& self.active_tag < TAG_COUNT
        &&& self.tiling.wf()
        &&& forall|t: int| 0 <= t < self.tags@.len() ==> (#[trigger] self.tags@[t]).tag == t
        &&& forall|t: int| 0 <= t < self.tags@.len() ==> tag_focus_ok(#[trigger] self.tags@[t])
        &&& self.ids_unique()
    }

    /// The windows of the currently active tag.
    pub open spec fn active_windows(&self) -> Seq<WindowState> {
        self.tags@[self.active_tag as int].windows@
    }

    /// Neither id of `w` occurs anywhere in the store, and the two ids of `w`
    /// differ: `w` may be adopted.
    pub open spec fn fresh_ids(&self, w: WindowState) -> bool {
        &&& w.window != w.frame_window
        &&& forall|t: int, i: int|
            0 <= t < self.tags@.len() && 0 <= i < self.tags@[t].windows@.len() ==> ids_disjoint(
                w,
                #[trigger] self.tags@[t].windows@[i],
            )
    }

    pub fn new(tiling: TilingInfo) -> (r: StateHandler)
        requires
            tiling.wf(),
        ensures
            r.wf(),
            r.active_tag == 0,
            r.tiling == tiling,
            forall|t: int|
                0 <= t < TAG_COUNT ==> (#[trigger] r.tags@[t]).windows@.len() == 0
                    && r.tags@[t].focus is None,
    {
        let mut tags: Vec<Tag> = Vec::new();
        let mut n: usize = 0;
        while n < TAG_COUNT
            invariant
                n <= TAG_COUNT,
                tags@.len() == n,
                forall|t: int|
                    0 <= t < n ==> (#[trigger] tags@[t]).tag == t && tags@[t].focus is None
                        && tags@[t].windows@.len() == 0,
            decreases TAG_COUNT - n,
        {
            tags.push(Tag::new(n));
            n = n + 1;
        }
        StateHandler { tags, active_tag: 0, tiling }
    }

    /// The focused client of the active tag, if any.
    pub fn get_focus(&self) -> (r: Option<u32>)
        requires
            self.active_tag < self.tags@.len(),
        ensures
            r == self.tags@[self.active_tag as int].focus,
    {
        self.tags[self.active_tag].focus
    }

    pub fn get_active_tag_windows(&self) -> (r: &Vec<WindowState>)
        requires
            self.active_tag < self.tags@.len(),
        ensures
            r@ == self.active_windows(),
    {
        &self.tags[self.active_tag].windows
    }

    /// The position in the active tag of the window whose client or frame id
    /// is `window`: the first match, or None.
    pub fn get_index_of_window(&self, window: u32) -> (r: Option<usize>)
        requires
            self.active_tag < self.tags@.len(),
        ensures
            match r {
                Some(k) => 0 <= k < self.active_windows().len() && (self.active_windows()[
                k as int].window == window || self.active_windows()[k as int].frame_window
                    == window) && forall|j: int|
                    0 <= j < k ==> (#[trigger] self.active_windows()[j]).window != window
                        && self.active_windows()[j].frame_window != window,
                None => forall|j: int|
                    0 <= j < self.active_windows().len() ==> (#[trigger] self.active_windows()[
                    j]).window != window && self.active_windows()[j].frame_window != window,
            },
    {
        let ws = &self.tags[self.active_tag].windows;
        let mut k: usize = 0;
        while k < ws.len()
            invariant
                k <= ws@.len(),
                ws@ == self.active_windows(),
                forall|j: int|
                    0 <= j < k ==> (#[trigger] ws@[j]).window != window && ws@[j].frame_window
                        != window,
            decreases ws@.len() - k,
        {
            if ws[k].window == window || ws[k].frame_window == window {
                return Some(k);
            }
            k = k + 1;
        }
        None
    }

    /// The record at position `k` of the active tag.
    pub fn window_at(&self, k: usize) -> (r: WindowState)
        requires
            self.active_tag < self.tags@.len(),
            k < self.active_windows().len(),
        ensures
            r == self.active_windows()[k as int],
    {
        self.tags[self.active_tag].windows[k]
    }

    /// The record in the active tag whose client or frame id is `window`:
    /// the first match, or None.
    pub fn get_window_state(&self, window: u32) -> (r: Option<WindowState>)
        requires
            self.active_tag < self.tags@.len(),
        ensures
            match r {
                Some(w) => (exists|k: int|
                    0 <= k < self.active_windows().len() && #[trigger] self.active_windows()[k]
                        == w) && (w.window == window || w.frame_window == window),
                None => forall|j: int|
                    0 <= j < self.active_windows().len() ==> (#[trigger] self.active_windows()[
                    j]).window != window && self.active_windows()[j].frame_window != window,
            },
    {
        match self.get_index_of_window(window) {
            Some(k) => Some(self.tags[self.active_tag].windows[k]),
            None => None,
        }
    }
}

/// `post` agrees with `pre` everywhere outside tag `t`: same tag count, same
/// active tag, same tiling, and every other tag unchanged.
pub open spec fn same_except_tag(pre: StateHandler, post: StateHandler, t: int) -> bool {
    &&& post.tags@.len() == pre.tags@.len()
    &&& post.active_tag == pre.active_tag
    &&& post.tiling == pre.tiling
    &&& forall|u: int| 0 <= u < pre.tags@.len() && u != t ==> post.tags@[u] == pre.tags@[u]
}

/// Id uniqueness survives any rewrite of one tag's list that keeps the length
/// and the ids of every entry.
proof fn lemma_ids_unique_same_ids(pre: StateHandler, post: StateHandler, t: int)
    requires
        pre.ids_unique(),
        same_except_tag(pre, post, t),
        0 <= t < pre.tags@.len(),
        post.tags@[t].windows@.len() == pre.tags@[t].windows@.len(),
        forall|i: int|
            0 <= i < pre.tags@[t].windows@.len() ==> (#[trigger] post.tags@[t].windows@[i]).window
                == pre.tags@[t].windows@[i].window && post.tags@[t].windows@[i].frame_window
                == pre.tags@[t].windows@[i].frame_window,
    ensures
        post.ids_unique(),
{
    assert forall|t1: int, i1: int, t2: int, i2: int|
        0 <= t1 < post.tags@.len() && 0 <= i1 < post.tags@[t1].windows@.len() && 0 <= t2
            < post.tags@.len() && 0 <= i2 < post.tags@[t2].windows@.len() && (t1 != t2 || i1
            != i2) implies ids_disjoint(
        #[trigger] post.tags@[t1].windows@[i1],
        #[trigger] post.tags@[t2].windows@[i2],
    ) by {
        assert(ids_disjoint(pre.tags@[t1].windows@[i1], pre.tags@[t2].windows@[i2]));
    }
    assert forall|u: int, i: int|
        0 <= u < post.tags@.len() && 0 <= i < post.tags@[u].windows@.len() implies (
    #[trigger] post.tags@[u].windows@[i]).window != post.tags@[u].windows@[i].frame_window by {
        assert((pre.tags@[u].windows@[i]).window != pre.tags@[u].windows@[i].frame_window);
    }
}

/// Id uniqueness survives appending a window with fresh ids to one tag.
proof fn lemma_ids_unique_push(pre: StateHandler, post: StateHandler, t: int, w: WindowState)
    requires
        pre.ids_unique(),
        pre.fresh_ids(w),
        same_except_tag(pre, post, t),
        0 <= t < pre.tags@.len(),
        post.tags@[t].windows@ == pre.tags@[t].windows@.push(w),
    ensures
        post.ids_unique(),
{
    let n = pre.tags@[t].windows@.len() as int;
    assert forall|t1: int, i1: int, t2: int, i2: int|
        0 <= t1 < post.tags@.len() && 0 <= i1 < post.tags@[t1].windows@.len() && 0 <= t2
            < post.tags@.len() && 0 <= i2 < post.tags@[t2].windows@.len() && (t1 != t2 || i1
            != i2) implies ids_disjoint(
        #[trigger] post.tags@[t1].windows@[i1],
        #[trigger] post.tags@[t2].windows@[i2],
    ) by {
        if t1 == t && i1 == n {
            assert(post.tags@[t1].windows@[i1] == w);
            assert(ids_disjoint(w, pre.tags@[t2].windows@[i2]));
        } else if t2 == t && i2 == n {
            assert(post.tags@[t2].windows@[i2] == w);
            assert(ids_disjoint(w, pre.tags@[t1].windows@[i1]));
        } else {
            assert(ids_disjoint(pre.tags@[t1].windows@[i1], pre.tags@[t2].windows@[i2]));
        }
    }
    assert forall|u: int, i: int|
        0 <= u < post.tags@.len() && 0 <= i < post.tags@[u].windows@.len() implies (
    #[trigger] post.tags@[u].windows@[i]).window != post.tags@[u].windows@[i].frame_window by {
        if u == t && i == n {
            assert(post.tags@[u].windows@[i] == w);
        } else {
            assert((pre.tags@[u].windows@[i]).window != pre.tags@[u].windows@[i].frame_window);
        }
    }
}

/// Id uniqueness survives removing one entry from one tag, and the removed
/// window's ids become fresh again.
proof fn lemma_ids_unique_remove(pre: StateHandler, post: StateHandler, t: int, k: int)
    requires
        pre.ids_unique(),
        same_except_tag(pre, post, t),
        0 <= t < pre.tags@.len(),
        0 <= k < pre.tags@[t].windows@.len(),
        post.tags@[t].windows@ == pre.tags@[t].windows@.remove(k),
    ensures
        post.ids_unique(),
        post.fresh_ids(pre.tags@[t].windows@[k]),
{
    let w = pre.tags@[t].windows@[k];
    let pre_at = |t1: int, i1: int| pre.tags@[t1].windows@[if t1 == t && i1 >= k {
        i1 + 1
    } else {
        i1
    }];
    assert forall|t1: int, i1: int, t2: int, i2: int|
        0 <= t1 < post.tags@.len() && 0 <= i1 < post.tags@[t1].windows@.len() && 0 <= t2
            < post.tags@.len() && 0 <= i2 < post.tags@[t2].windows@.len() && (t1 != t2 || i1
            != i2) implies ids_disjoint(
        #[trigger] post.tags@[t1].windows@[i1],
        #[trigger] post.tags@[t2].windows@[i2],
    ) by {
        let j1 = if t1 == t && i1 >= k { i1 + 1 } else { i1 };
        let j2 = if t2 == t && i2 >= k { i2 + 1 } else { i2 };
        assert(post.tags@[t1].windows@[i1] == pre.tags@[t1].windows@[j1]);
        assert(post.tags@[t2].windows@[i2] == pre.tags@[t2].windows@[j2]);
        assert(ids_disjoint(pre.tags@[t1].windows@[j1], pre.tags@[t2].windows@[j2]));
    }
    assert forall|u: int, i: int|
        0 <= u < post.tags@.len() && 0 <= i < post.tags@[u].windows@.len() implies (
    #[trigger] post.tags@[u].windows@[i]).window != post.tags@[u].windows@[i].frame_window by {
        let j = if u == t && i >= k { i + 1 } else { i };
        assert(post.tags@[u].windows@[i] == pre.tags@[u].windows@[j]);
        assert((pre.tags@[u].windows@[j]).window != pre.tags@[u].windows@[j].frame_window);
    }
    assert forall|u: int, i: int|
        0 <= u < post.tags@.len() && 0 <= i < post.tags@[u].windows@.len() implies ids_disjoint(
        w,
        #[trigger] post.tags@[u].windows@[i],
    ) by {
        let j = if u == t && i >= k { i + 1 } else { i };
        assert(post.tags@[u].windows@[i] == pre.tags@[u].windows@[j]);
        assert((u, j) != (t, k));
        assert(ids_disjoint(pre.tags@[t].windows@[k], pre.tags@[u].windows@[j]));
    }
}

/// Id uniqueness survives exchanging the entries at positions `a` and `b` of
/// one tag's list.
proof fn lemma_ids_unique_swap(pre: StateHandler, post: StateHandler, t: int, a: int, b: int)
    requires
        pre.ids_unique(),
        same_except_tag(pre, post, t),
        0 <= t < pre.tags@.len(),
        0 <= a < pre.tags@[t].windows@.len(),
        0 <= b < pre.tags@[t].windows@.len(),
        post.tags@[t].windows@ == pre.tags@[t].windows@.update(
            a,
            pre.tags@[t].windows@[b],
        ).update(b, pre.tags@[t].windows@[a]),
    ensures
        post.ids_unique(),
{
    assert forall|t1: int, i1: int, t2: int, i2: int|
        0 <= t1 < post.tags@.len() && 0 <= i1 < post.tags@[t1].windows@.len() && 0 <= t2
            < post.tags@.len() && 0 <= i2 < post.tags@[t2].windows@.len() && (t1 != t2 || i1
            != i2) implies ids_disjoint(
        #[trigger] post.tags@[t1].windows@[i1],
        #[trigger] post.tags@[t2].windows@[i2],
    ) by {
        let j1 = if t1 == t && i1 == b { a } else if t1 == t && i1 == a { b } else { i1 };
        let j2 = if t2 == t && i2 == b { a } else if t2 == t && i2 == a { b } else { i2 };
        assert(post.tags@[t1].windows@[i1] == pre.tags@[t1].windows@[j1]);
        assert(post.tags@[t2].windows@[i2] == pre.tags@[t2].windows@[j2]);
        assert(ids_disjoint(pre.tags@[t1].windows@[j1], pre.tags@[t2].windows@[j2]));
    }
    assert forall|u: int, i: int|
        0 <= u < post.tags@.len() && 0 <= i < post.tags@[u].windows@.len() implies (
    #[trigger] post.tags@[u].windows@[i]).window != post.tags@[u].windows@[i].frame_window by {
        let j = if u == t && i == b { a } else if u == t && i == a { b } else { i };
        assert(post.tags@[u].windows@[i] == pre.tags@[u].windows@[j]);
        assert((pre.tags@[u].windows@[j]).window != pre.tags@[u].windows@[j].frame_window);
    }
}

/// The window list of the active tag after `swap_master` found the focused
/// window at position `fi`: it changes place with the master (the tail), or
/// with the penultimate entry when it is itself the master of two or more
/// windows.
pub open spec fn swap_master_windows(ws: Seq<WindowState>, f: u32, fi: int) -> Seq<WindowState> {
    let n = ws.len() as int;
    let mi = if ws[n - 1].window == f && n > 1 {
        n - 2
    } else {
        n - 1
    };
    ws.update(fi, ws[mi]).update(mi, ws[fi])
}

/// Clamps a prospective ratio (in thousandths) to the allowed band.
pub open spec fn clamp_ratio(r: int) -> u32 {
    if r < RATIO_MIN {
        RATIO_MIN
    } else if r > RATIO_MAX {
        RATIO_MAX
    } else {
        r as u32
    }
}

impl StateHandler {
    /// Adopts `window` into the active tag: it is appended (so it becomes the
    /// new master on the next refresh) and focused.
    pub fn add_window(&mut self, window: WindowState)
        requires
            old(self).wf(),
            old(self).fresh_ids(window),
        ensures
            final(self).wf(),
            same_except_tag(*old(self), *final(self), old(self).active_tag as int),
            final(self).tags@[old(self).active_tag as int] == (Tag {
                tag: old(self).tags@[old(self).active_tag as int].tag,
                focus: Some(window.window),
                windows: final(self).tags@[old(self).active_tag as int].windows,
            }),
            final(self).active_windows() == old(self).active_windows().push(window),
    {
        let at = self.active_tag;
        self.tags[at].windows.push(window);
        self.tags[at].focus = Some(window.window);
        proof {
            let t = at as int;
            let n = old(self).tags@[t].windows@.len() as int;
            assert(self.tags@[t].windows@ == old(self).tags@[t].windows@.push(window));
            lemma_ids_unique_push(*old(self), *self, t, window);
            assert(self.tags@[t].windows@[n].window == window.window);
            assert(tag_has_client(self.tags@[t], window.window));
            assert forall|u: int| 0 <= u < self.tags@.len() implies tag_focus_ok(
                #[trigger] self.tags@[u],
            ) by {
                if u != t {
                    assert(self.tags@[u] == old(self).tags@[u]);
                }
            }
        }
    }

    /// Re-seats the active tag's focus on the current master (the tail of the
    /// list), or clears it when the tag is empty.
    pub fn set_tag_focus_to_master(&mut self)
        requires
            old(self).wf(),
        ensures
            final(self).wf(),
            same_except_tag(*old(self), *final(self), old(self).active_tag as int),
            final(self).active_windows() == old(self).active_windows(),
            final(self).tags@[old(self).active_tag as int].tag == old(self).tags@[old(
                self,
            ).active_tag as int].tag,
            final(self).tags@[old(self).active_tag as int].focus == (if old(
                self,
            ).active_windows().len() > 0 {
                Some(old(self).active_windows().last().window)
            } else {
                None::<u32>
            }),
    {
        let at = self.active_tag;
        let n = self.tags[at].windows.len();
        let f: Option<u32> = if n > 0 {
            Some(self.tags[at].windows[n - 1].window)
        } else {
            None
        };
        self.tags[at].focus = f;
        proof {
            let t = at as int;
            lemma_ids_unique_same_ids(*old(self), *self, t);
            if n > 0 {
                assert(self.tags@[t].windows@[n - 1].window
                    == old(self).active_windows().last().window);
                assert(tag_has_client(self.tags@[t], old(self).active_windows().last().window));
            }
            assert forall|u: int| 0 <= u < self.tags@.len() implies tag_focus_ok(
                #[trigger] self.tags@[u],
            ) by {
                if u != t {
                    assert(self.tags@[u] == old(self).tags@[u]);
                }
            }
        }
    }

    /// Focuses the window standing at position `k` of the active tag.
    pub fn focus_window_at(&mut self, k: usize)
        requires
            old(self).wf(),
            k < old(self).active_windows().len(),
        ensures
            final(self).wf(),
            same_except_tag(*old(self), *final(self), old(self).active_tag as int),
            final(self).active_windows() == old(self).active_windows(),
            final(self).tags@[old(self).active_tag as int].tag == old(self).tags@[old(
                self,
            ).active_tag as int].tag,
            final(self).tags@[old(self).active_tag as int].focus == Some(
                old(self).active_windows()[k as int].window,
            ),
    {
        let at = self.active_tag;
        let id = self.tags[at].windows[k].window;
        self.tags[at].focus = Some(id);
        proof {
            let t = at as int;
            lemma_ids_unique_same_ids(*old(self), *self, t);
            assert(self.tags@[t].windows@[k as int].window == id);
            assert(tag_has_client(self.tags@[t], id));
            assert forall|u: int| 0 <= u < self.tags@.len() implies tag_focus_ok(
                #[trigger] self.tags@[u],
            ) by {
                if u != t {
                    assert(self.tags@[u] == old(self).tags@[u]);
                }
            }
        }
    }

    /// Drops the record at position `k` of the active tag and re-seats the
    /// tag's focus on the remaining master, if any. The removed record's ids
    /// become free again.
    pub fn remove_window_at(&mut self, k: usize)
        requires
            old(self).wf(),
            k < old(self).active_windows().len(),
        ensures
            final(self).wf(),
            same_except_tag(*old(self), *final(self), old(self).active_tag as int),
            final(self).active_windows() == old(self).active_windows().remove(k as int),
            final(self).tags@[old(self).active_tag as int].tag == old(self).tags@[old(
                self,
            ).active_tag as int].tag,
            final(self).tags@[old(self).active_tag as int].focus == (if final(self)
                .active_windows().len() > 0 {
                Some(final(self).active_windows().last().window)
            } else {
                None::<u32>
            }),
            final(self).fresh_ids(old(self).active_windows()[k as int]),
    {
        let at = self.active_tag;
        self.tags[at].windows.remove(k);
        let n = self.tags[at].windows.len();
        let f: Option<u32> = if n > 0 {
            Some(self.tags[at].windows[n - 1].window)
        } else {
            None
        };
        self.tags[at].focus = f;
        proof {
            let t = at as int;
            lemma_ids_unique_remove(*old(self), *self, t, k as int);
            if n > 0 {
                assert(self.tags@[t].windows@[n - 1].window
                    == self.active_windows().last().window);
                assert(tag_has_client(self.tags@[t], self.active_windows().last().window));
            }
            assert forall|u: int| 0 <= u < self.tags@.len() implies tag_focus_ok(
                #[trigger] self.tags@[u],
            ) by {
                if u != t {
                    assert(self.tags@[u] == old(self).tags@[u]);
                }
            }
        }
    }

    /// Appends a window with fresh ids to tag `t`, leaving that tag's focus
    /// alone. Used when a window travels from the active tag to another.
    pub fn push_to_tag(&mut self, t: usize, w: WindowState)
        requires
            old(self).wf(),
            t < TAG_COUNT,
            old(self).fresh_ids(w),
        ensures
            final(self).wf(),
            same_except_tag(*old(self), *final(self), t as int),
            final(self).tags@[t as int].windows@ == old(self).tags@[t as int].windows@.push(w),
            final(self).tags@[t as int].tag == old(self).tags@[t as int].tag,
            final(self).tags@[t as int].focus == old(self).tags@[t as int].focus,
    {
        self.tags[t].windows.push(w);
        proof {
            let ti = t as int;
            let n = old(self).tags@[ti].windows@.len() as int;
            assert(self.tags@[ti].windows@ == old(self).tags@[ti].windows@.push(w));
            lemma_ids_unique_push(*old(self), *self, ti, w);
            assert forall|u: int| 0 <= u < self.tags@.len() implies tag_focus_ok(
                #[trigger] self.tags@[u],
            ) by {
                if u != ti {
                    assert(self.tags@[u] == old(self).tags@[u]);
                } else {
                    match self.tags@[u].focus {
                        Some(id) => {
                            let k = choose|k: int|
                                0 <= k < old(self).tags@[u].windows@.len() && (#[trigger] old(
                                    self,
                                ).tags@[u].windows@[k]).window == id;
                            assert(self.tags@[u].windows@[k].window == id);
                        },
                        None => {},
                    }
                }
            }
        }
    }

    /// Exchanges the focused window with the current master; when the focused
    /// window is itself the master of a tag of two or more, it changes place
    /// with the penultimate entry instead. Without a focus this is a no-op.
    pub fn swap_master(&mut self)
        requires
            old(self).wf(),
        ensures
            final(self).wf(),
            same_except_tag(*old(self), *final(self), old(self).active_tag as int),
            final(self).tags@[old(self).active_tag as int].tag == old(self).tags@[old(
                self,
            ).active_tag as int].tag,
            final(self).tags@[old(self).active_tag as int].focus == old(self).tags@[old(
                self,
            ).active_tag as int].focus,
            match old(self).tags@[old(self).active_tag as int].focus {
                None => final(self).active_windows() == old(self).active_windows(),
                Some(f) => forall|fi: int|
                    0 <= fi < old(self).active_windows().len() && (#[trigger] old(
                        self,
                    ).active_windows()[fi]).window == f ==> final(self).active_windows()
                        == swap_master_windows(old(self).active_windows(), f, fi),
            },
    {
        let at = self.active_tag;
        let f: u32 = match self.tags[at].focus {
            Some(w) => w,
            None => {
                return ;
            },
        };
        let fi: usize = match self.get_index_of_window(f) {
            Some(i) => i,
            None => {
                proof {
                    let k = choose|k: int|
                        0 <= k < self.active_windows().len() && (#[trigger] self.active_windows()[
                        k]).window == f;
                    assert(false);
                }
                return ;
            },
        };
        let n = self.tags[at].windows.len();
        let mi: usize = if self.tags[at].windows[n - 1].window == f && n > 1 {
            n - 2
        } else {
            n - 1
        };
        let a = self.tags[at].windows[fi];
        let b = self.tags[at].windows[mi];
        self.tags[at].windows[fi] = b;
        self.tags[at].windows[mi] = a;
        proof {
            let t = at as int;
            let ws = old(self).active_windows();
            assert(self.tags@[t].windows@ == ws.update(fi as int, ws[mi as int]).update(
                mi as int,
                ws[fi as int],
            ));
            lemma_ids_unique_swap(*old(self), *self, t, fi as int, mi as int);
            // The focused window found by the scan is the only entry carrying
            // client id `f`, so its position pins the swap.
            assert(ws[fi as int].window == f || ws[fi as int].frame_window == f);
            let k = choose|k: int| 0 <= k < ws.len() && (#[trigger] ws[k]).window == f;
            if ws[fi as int].window != f {
                assert(k != fi);
                assert(ids_disjoint(ws[k], ws[fi as int]));
                assert(false);
            }
            assert forall|fj: int|
                0 <= fj < ws.len() && (#[trigger] ws[fj]).window == f implies fj == fi as int by {
                if fj != fi {
                    assert(ids_disjoint(ws[fj], ws[fi as int]));
                }
            }
            // Focus still names a member: the focused record moved to `mi`.
            assert(self.tags@[t].windows@[mi as int].window == f);
            assert(tag_has_client(self.tags@[t], f));
            assert forall|u: int| 0 <= u < self.tags@.len() implies tag_focus_ok(
                #[trigger] self.tags@[u],
            ) by {
                if u != t {
                    assert(self.tags@[u] == old(self).tags@[u]);
                }
            }
        }
    }

    /// Moves the active tag's focus `change` places along the window list,
    /// wrapping Euclidean-style in both directions. Without a focus this is a
    /// no-op.
    pub fn switch_focus_next(&mut self, change: i16)
        requires
            old(self).wf(),
        ensures
            final(self).wf(),
            same_except_tag(*old(self), *final(self), old(self).active_tag as int),
            final(self).active_windows() == old(self).active_windows(),
            final(self).tags@[old(self).active_tag as int].tag == old(self).tags@[old(
                self,
            ).active_tag as int].tag,
            match old(self).tags@[old(self).active_tag as int].focus {
                None => final(self).tags@[old(self).active_tag as int].focus == old(self).tags@[old(
                    self,
                ).active_tag as int].focus,
                Some(f) => forall|fi: int|
                    0 <= fi < old(self).active_windows().len() && (#[trigger] old(
                        self,
                    ).active_windows()[fi]).window == f ==> final(self).tags@[old(
                        self,
                    ).active_tag as int].focus == Some(
                        old(self).active_windows()[(fi + change as int) % (old(
                            self,
                        ).active_windows().len() as int)].window,
                    ),
            },
    {
        let at = self.active_tag;
        let f: u32 = match self.tags[at].focus {
            Some(w) => w,
            None => {
                return ;
            },
        };
        let fi: usize = match self.get_index_of_window(f) {
            Some(i) => i,
            None => {
                proof {
                    let k = choose|k: int|
                        0 <= k < self.active_windows().len() && (#[trigger] self.active_windows()[
                        k]).window == f;
                    assert(false);
                }
                return ;
            },
        };
        let n = self.tags[at].windows.len();
        // A wrapped step of |change| places, carried out in unsigned
        // arithmetic so no intermediate value leaves usize.
        let step: usize = if change >= 0 {
            (change as usize) % n
        } else {
            let neg = (-(change as i32)) as usize % n;
            if neg == 0 {
                0
            } else {
                n - neg
            }
        };
        let ni: usize = if step < n - fi {
            fi + step
        } else {
            step - (n - fi)
        };
        let id = self.tags[at].windows[ni].window;
        self.tags[at].focus = Some(id);
        proof {
            let t = at as int;
            let ws = old(self).active_windows();
            lemma_ids_unique_same_ids(*old(self), *self, t);
            assert(tag_has_client(self.tags@[t], id)) by {
                assert(self.tags@[t].windows@[ni as int].window == id);
            }
            assert forall|u: int| 0 <= u < self.tags@.len() implies tag_focus_ok(
                #[trigger] self.tags@[u],
            ) by {
                if u != t {
                    assert(self.tags@[u] == old(self).tags@[u]);
                }
            }
            // The scan's index is the only position carrying client id `f`.
            assert(ws[fi as int].window == f || ws[fi as int].frame_window == f);
            let k = choose|k: int| 0 <= k < ws.len() && (#[trigger] ws[k]).window == f;
            if ws[fi as int].window != f {
                assert(k != fi);
                assert(ids_disjoint(ws[k], ws[fi as int]));
                assert(false);
            }
            assert forall|fj: int|
                0 <= fj < ws.len() && (#[trigger] ws[fj]).window == f implies fj == fi as int by {
                if fj != fi {
                    assert(ids_disjoint(ws[fj], ws[fi as int]));
                }
            }
            // The unsigned step agrees with the Euclidean remainder.
            lemma_step_is_euclidean(fi as int, change as int, step as int, ni as int, n as int);
        }
    }

    /// Nudges the master/stack ratio by `delta` thousandths, clamped to the
    /// allowed band.
    pub fn change_ratio(&mut self, delta: i32)
        requires
            old(self).wf(),
        ensures
            final(self).wf(),
            final(self).tags == old(self).tags,
            final(self).active_tag == old(self).active_tag,
            final(self).tiling == (TilingInfo {
                ratio: clamp_ratio(old(self).tiling.ratio + delta),
                ..old(self).tiling
            }),
    {
        let s: i64 = self.tiling.ratio as i64 + delta as i64;
        let nr: u32 = if s < RATIO_MIN as i64 {
            RATIO_MIN
        } else if s > RATIO_MAX as i64 {
            RATIO_MAX
        } else {
            s as u32
        };
        self.tiling.ratio = nr;
    }

    /// Makes `t` the active tag. The tags themselves are untouched.
    pub fn set_active_tag(&mut self, t: usize)
        requires
            old(self).wf(),
            t < TAG_COUNT,
        ensures
            final(self).wf(),
            final(self).tags == old(self).tags,
            final(self).tiling == old(self).tiling,
            final(self).active_tag == t,
    {
        self.active_tag = t;
    }
}

/// `w` with its layout role replaced by `g`.
pub open spec fn with_group(w: WindowState, g: WindowGroup) -> WindowState {
    WindowState {
        window: w.window,
        frame_window: w.frame_window,
        x: w.x,
        y: w.y,
        width: w.width,
        height: w.height,
        group: g,
    }
}

/// The classification pass of a refresh: every non-Floating window becomes
/// Stack, then the tail is promoted to Master unless it is Floating.
pub open spec fn classified_windows(ws: Seq<WindowState>) -> Seq<WindowState> {
    Seq::new(
        ws.len(),
        |i: int|
            {
                let w = ws[i];
                if w.group == WindowGroup::Floating {
                    w
                } else if i == ws.len() - 1 {
                    with_group(w, WindowGroup::Master)
                } else {
                    with_group(w, WindowGroup::Stack)
                }
            },
    )
}

/// How many of the first `n` windows are classified Stack.
pub open spec fn count_stack_prefix(ws: Seq<WindowState>, n: int) -> int
    decreases n,
{
    if n <= 0 {
        0
    } else {
        count_stack_prefix(ws, n - 1) + if ws[n - 1].group == WindowGroup::Stack {
            1int
        } else {
            0int
        }
    }
}

/// The number of Stack windows in the whole list.
pub open spec fn stack_total(ws: Seq<WindowState>) -> int {
    count_stack_prefix(ws, ws.len() as int)
}

pub(crate) proof fn lemma_count_stack_monotone(ws: Seq<WindowState>, a: int, b: int)
    requires
        0 <= a <= b,
    ensures
        count_stack_prefix(ws, a) <= count_stack_prefix(ws, b),
        count_stack_prefix(ws, b) <= count_stack_prefix(ws, a) + (b - a),
    decreases b - a,
{
    if a < b {
        lemma_count_stack_monotone(ws, a, b - 1);
    }
}

/// The width of the master column's span: the part of the screen left of the
/// stack column, in pixels.
pub open spec fn narrow_width(ti: TilingInfo) -> int {
    ti.width * (1000 - ti.ratio) / 1000
}

/// The geometry the tiler owes the window: `w` is the record before the pass,
/// `v` after; `si` is the window's position among the Stack windows and `s`
/// their total count. Floating windows keep their own geometry.
pub open spec fn tiled_geometry(
    w: WindowState,
    v: WindowState,
    ti: TilingInfo,
    si: int,
    s: int,
) -> bool {
    &&& v.window == w.window
    &&& v.frame_window == w.frame_window
    &&& v.group == w.group
    &&& match w.group {
        WindowGroup::Master => {
            &&& v.x as int == ti.gap
            &&& v.y as int == ti.gap + ti.bar_height
            &&& v.width as int == if s == 0 {
                ti.width - 2 * ti.gap
            } else {
                narrow_width(ti) - 2 * ti.gap
            }
            &&& v.height as int == ti.height - 2 * ti.gap - ti.bar_height
        },
        WindowGroup::Stack => {
            let h_slot = ti.height as int / s;
            &&& v.x as int == narrow_width(ti)
            &&& v.y as int == if si == 0 {
                ti.gap + ti.bar_height
            } else {
                si * h_slot
            }
            &&& v.width as int == ti.width * ti.ratio / 1000 - ti.gap
            &&& v.height as int == if si == 0 {
                if h_slot >= 2 * ti.gap + ti.bar_height {
                    h_slot - 2 * ti.gap - ti.bar_height
                } else {
                    0
                }
            } else {
                if h_slot >= ti.gap {
                    h_slot - ti.gap
                } else {
                    0
                }
            }
        },
        WindowGroup::Floating => v == w,
    }
}

/// Multiplying by a factor of at most a thousand and dividing by a thousand
/// never grows a non-negative quantity.
proof fn lemma_mul_div_le(w: int, f: int)
    requires
        w >= 0,
        0 <= f <= 1000,
    ensures
        w * f / 1000 <= w,
{
    assert(w * f <= w * 1000) by (nonlinear_arith)
        requires
            w >= 0,
            0 <= f <= 1000,
    ;
    vstd::arithmetic::div_mod::lemma_div_is_ordered(w * f, w * 1000, 1000);
    vstd::arithmetic::div_mod::lemma_div_multiples_vanish(w, 1000);
    assert(w * 1000 == 1000 * w);
}

/// Both column widths leave room for their gaps and stay on the screen, for
/// any ratio within the allowed band.
pub(crate) proof fn lemma_column_bounds(ti: TilingInfo)
    requires
        ti.wf(),
    ensures
        2 * ti.gap <= narrow_width(ti) <= ti.width,
        2 * ti.gap <= ti.width * ti.ratio / 1000 <= ti.width,
{
    let w = ti.width as int;
    assert(w * (1000 - RATIO_MAX) <= w * (1000 - ti.ratio)) by (nonlinear_arith)
        requires
            w >= 0,
            RATIO_MIN <= ti.ratio <= RATIO_MAX,
    ;
    vstd::arithmetic::div_mod::lemma_div_is_ordered(
        w * (1000 - RATIO_MAX),
        w * (1000 - ti.ratio),
        1000,
    );
    lemma_mul_div_le(w, 1000 - ti.ratio as int);
    assert(w * (1000 - RATIO_MAX) <= w * ti.ratio) by (nonlinear_arith)
        requires
            w >= 0,
            RATIO_MIN <= ti.ratio <= RATIO_MAX,
    ;
    vstd::arithmetic::div_mod::lemma_div_is_ordered(w * (1000 - RATIO_MAX), w * ti.ratio, 1000);
    lemma_mul_div_le(w, ti.ratio as int);
}

impl StateHandler {
    /// The classification pass: every non-Floating window of the active tag
    /// becomes Stack, then the tail is promoted to Master unless Floating.
    pub fn set_last_master_others_stack(&mut self)
        requires
            old(self).wf(),
        ensures
            final(self).wf(),
            same_except_tag(*old(self), *final(self), old(self).active_tag as int),
            final(self).active_windows() == classified_windows(old(self).active_windows()),
            final(self).tags@[old(self).active_tag as int].tag == old(self).tags@[old(
                self,
            ).active_tag as int].tag,
            final(self).tags@[old(self).active_tag as int].focus == old(self).tags@[old(
                self,
            ).active_tag as int].focus,
    {
        let at = self.active_tag;
        let n = self.tags[at].windows.len();
        let ghost ws0 = old(self).active_windows();
        let mut i: usize = 0;
        while i < n
            invariant
                old(self).wf(),
                self.active_tag == old(self).active_tag,
                self.tiling == old(self).tiling,
                self.tags@.len() == old(self).tags@.len(),
                at == old(self).active_tag,
                n == ws0.len(),
                ws0 == old(self).active_windows(),
                i <= n,
                forall|u: int|
                    0 <= u < self.tags@.len() && u != at ==> self.tags@[u] == old(self).tags@[u],
                self.tags@[at as int].tag == old(self).tags@[at as int].tag,
                self.tags@[at as int].focus == old(self).tags@[at as int].focus,
                self.tags@[at as int].windows@.len() == n,
                forall|j: int|
                    0 <= j < i ==> #[trigger] self.tags@[at as int].windows@[j] == (if ws0[j].group
                        == WindowGroup::Floating {
                        ws0[j]
                    } else {
                        with_group(ws0[j], WindowGroup::Stack)
                    }),
                forall|j: int| i <= j < n ==> #[trigger] self.tags@[at as int].windows@[j] == ws0[j],
            decreases n - i,
        {
            let w = self.tags[at].windows[i];
            if !matches!(w.group, WindowGroup::Floating) {
                self.tags[at].windows[i] = WindowState { group: WindowGroup::Stack, ..w };
            }
            i = i + 1;
        }
        if n > 0 {
            let w = self.tags[at].windows[n - 1];
            if !matches!(w.group, WindowGroup::Floating) {
                self.tags[at].windows[n - 1] = WindowState { group: WindowGroup::Master, ..w };
            }
        }
        proof {
            let t = at as int;
            assert(self.tags@[t].windows@ =~= classified_windows(ws0));
            lemma_ids_unique_same_ids(*old(self), *self, t);
            assert forall|u: int| 0 <= u < self.tags@.len() implies tag_focus_ok(
                #[trigger] self.tags@[u],
            ) by {
                if u != t {
                    assert(self.tags@[u] == old(self).tags@[u]);
                } else {
                    match self.tags@[u].focus {
                        Some(id) => {
                            let k = choose|k: int|
                                0 <= k < old(self).tags@[u].windows@.len() && (#[trigger] old(
                                    self,
                                ).tags@[u].windows@[k]).window == id;
                            assert(self.tags@[u].windows@[k].window == id);
                        },
                        None => {},
                    }
                }
            }
        }
    }
}

impl StateHandler {
    /// The tiler: assigns every Master and Stack window of the active tag its
    /// place in the master/stack layout. A pure function of the window list
    /// and the tiling parameters; Floating windows are left untouched.
    pub fn tile_windows(&mut self)
        requires
            old(self).wf(),
        ensures
            final(self).wf(),
            same_except_tag(*old(self), *final(self), old(self).active_tag as int),
            final(self).tags@[old(self).active_tag as int].tag == old(self).tags@[old(
                self,
            ).active_tag as int].tag,
            final(self).tags@[old(self).active_tag as int].focus == old(self).tags@[old(
                self,
            ).active_tag as int].focus,
            final(self).active_windows().len() == old(self).active_windows().len(),
            forall|i: int|
                0 <= i < old(self).active_windows().len() ==> tiled_geometry(
                    old(self).active_windows()[i],
                    #[trigger] final(self).active_windows()[i],
                    old(self).tiling,
                    count_stack_prefix(old(self).active_windows(), i),
                    stack_total(old(self).active_windows()),
                ),
    {
        let at = self.active_tag;
        let gap: u32 = self.tiling.gap as u32;
        let ratio: u32 = self.tiling.ratio;
        let maxw: u32 = self.tiling.width as u32;
        let maxh: u32 = self.tiling.height as u32;
        let bar: u32 = self.tiling.bar_height as u32;
        let n = self.tags[at].windows.len();
        let ghost ws0 = old(self).active_windows();
        let ghost ti = old(self).tiling;
        proof {
            lemma_column_bounds(ti);
        }
        let narrow: u32 = maxw * (1000 - ratio) / 1000;
        let stack_w: u32 = maxw * ratio / 1000;

        // First pass: how many Stack windows the tag holds.
        let mut s: usize = 0;
        let mut i: usize = 0;
        while i < n
            invariant
                self == old(self),
                ws0 == old(self).active_windows(),
                old(self).wf(),
                at == old(self).active_tag,
                n == ws0.len(),
                i <= n,
                s == count_stack_prefix(ws0, i as int),
                s <= i,
            decreases n - i,
        {
            if matches!(self.tags[at].windows[i].group, WindowGroup::Stack) {
                s = s + 1;
            }
            i = i + 1;
        }
        proof {
            lemma_count_stack_monotone(ws0, 0, n as int);
        }

        // Second pass: write the geometry of each Master and Stack window.
        let mut si: usize = 0;
        let mut i: usize = 0;
        while i < n
            invariant
                old(self).wf(),
                self.active_tag == old(self).active_tag,
                self.tiling == old(self).tiling,
                self.tags@.len() == old(self).tags@.len(),
                at == old(self).active_tag,
                ti == old(self).tiling,
                gap == ti.gap,
                ratio == ti.ratio,
                maxw == ti.width,
                maxh == ti.height,
                bar == ti.bar_height,
                narrow == narrow_width(ti),
                stack_w == ti.width * ti.ratio / 1000,
                n == ws0.len(),
                ws0 == old(self).active_windows(),
                s == stack_total(ws0),
                i <= n,
                si == count_stack_prefix(ws0, i as int),
                forall|u: int|
                    0 <= u < self.tags@.len() && u != at ==> self.tags@[u] == old(self).tags@[u],
                self.tags@[at as int].tag == old(self).tags@[at as int].tag,
                self.tags@[at as int].focus == old(self).tags@[at as int].focus,
                self.tags@[at as int].windows@.len() == n,
                forall|j: int|
                    0 <= j < i ==> tiled_geometry(
                        ws0[j],
                        #[trigger] self.tags@[at as int].windows@[j],
                        ti,
                        count_stack_prefix(ws0, j),
                        stack_total(ws0),
                    ),
                forall|j: int| i <= j < n ==> #[trigger] self.tags@[at as int].windows@[j] == ws0[j],
            decreases n - i,
        {
            let w = self.tags[at].windows[i];
            proof {
                lemma_count_stack_monotone(ws0, i as int, n as int);
                lemma_count_stack_monotone(ws0, i + 1, n as int);
                lemma_column_bounds(ti);
            }
            match w.group {
                WindowGroup::Master => {
                    let width: u32 = if s == 0 {
                        maxw - 2 * gap
                    } else {
                        narrow - 2 * gap
                    };
                    let height: u32 = maxh - 2 * gap - bar;
                    self.tags[at].windows[i] = WindowState {
                        x: gap as i16,
                        y: (gap + bar) as i16,
                        width: width as u16,
                        height: height as u16,
                        ..w
                    };
                    proof {
                        assert(tiled_geometry(
                            ws0[i as int],
                            self.tags@[at as int].windows@[i as int],
                            ti,
                            count_stack_prefix(ws0, i as int),
                            stack_total(ws0),
                        ));
                    }
                },
                WindowGroup::Stack => {
                    // This window counts toward the Stack total, so s >= 1.
                    let h_slot: u32 = maxh / (if s as u64 > 0xffff_ffff {
                        0xffff_ffffu32
                    } else {
                        s as u32
                    });
                    proof {
                        if s as u64 > 0xffff_ffffu64 {
                            vstd::arithmetic::div_mod::lemma_div_is_ordered_by_denominator(
                                maxh as int,
                                0xffff_ffff as int,
                                s as int,
                            );
                            vstd::arithmetic::div_mod::lemma_basic_div(
                                maxh as int,
                                0xffff_ffff as int,
                            );
                            vstd::arithmetic::div_mod::lemma_basic_div(maxh as int, s as int);
                        }
                    }
                    let y: u32 = if si == 0 {
                        gap + bar
                    } else {
                        if h_slot == 0 {
                            0
                        } else {
                            proof {
                                vstd::arithmetic::div_mod::lemma_fundamental_div_mod(
                                    maxh as int,
                                    s as int,
                                );
                                vstd::arithmetic::div_mod::lemma_mod_division_less_than_divisor(
                                    maxh as int,
                                    s as int,
                                );
                                assert(si * h_slot <= maxh) by (nonlinear_arith)
                                    requires
                                        0 <= si < s,
                                        h_slot >= 1,
                                        s as int * h_slot as int <= maxh as int,
                                ;
                                assert(si <= si * h_slot) by (nonlinear_arith)
                                    requires
                                        si >= 0,
                                        h_slot as int >= 1,
                                ;
                            }
                            (si as u32) * h_slot
                        }
                    };
                    let height: u32 = if si == 0 {
                        if h_slot >= 2 * gap + bar {
                            h_slot - 2 * gap - bar
                        } else {
                            0
                        }
                    } else {
                        if h_slot >= gap {
                            h_slot - gap
                        } else {
                            0
                        }
                    };
                    proof {
                        vstd::arithmetic::div_mod::lemma_div_nonincreasing(maxh as int, s as int);
                        vstd::arithmetic::div_mod::lemma_div_pos_is_pos(maxh as int, s as int);
                    }
                    self.tags[at].windows[i] = WindowState {
                        x: narrow as i16,
                        y: y as i16,
                        width: (stack_w - gap) as u16,
                        height: height as u16,
                        ..w
                    };
                    proof {
                        let v = self.tags@[at as int].windows@[i as int];
                        let hs = ti.height as int / (s as int);
                        assert(h_slot as int == hs);
                        assert(v.x as int == narrow_width(ti));
                        assert(v.width as int == ti.width * ti.ratio / 1000 - ti.gap);
                        if si == 0 {
                            assert(v.y as int == ti.gap + ti.bar_height);
                        } else if h_slot == 0 {
                            assert(hs == 0);
                            assert(si as int * hs == 0) by (nonlinear_arith)
                                requires
                                    hs == 0,
                            ;
                            assert(v.y as int == 0);
                        } else {
                            assert(si as int <= maxh as int);
                            assert(y <= 32767);
                            assert(v.y as int == y as int);
                            assert(y as int == si as int * h_slot as int);
                            assert(v.y as int == si as int * hs);
                        }
                        assert(v.y as int == if si as int == 0 {
                            ti.gap + ti.bar_height
                        } else {
                            si as int * hs
                        });
                        assert(v.height as int == if si as int == 0 {
                            if hs >= 2 * ti.gap + ti.bar_height {
                                hs - 2 * ti.gap - ti.bar_height
                            } else {
                                0
                            }
                        } else {
                            if hs >= ti.gap {
                                hs - ti.gap
                            } else {
                                0
                            }
                        });
                        assert(tiled_geometry(
                            ws0[i as int],
                            v,
                            ti,
                            count_stack_prefix(ws0, i as int),
                            stack_total(ws0),
                        ));
                    }
                    si = si + 1;
                },
                WindowGroup::Floating => {},
            }
            proof {
                assert(tiled_geometry(
                    ws0[i as int],
                    self.tags@[at as int].windows@[i as int],
                    ti,
                    count_stack_prefix(ws0, i as int),
                    stack_total(ws0),
                ));
                assert forall|j: int|
                    0 <= j < i + 1 implies tiled_geometry(
                    ws0[j],
                    #[trigger] self.tags@[at as int].windows@[j],
                    ti,
                    count_stack_prefix(ws0, j),
                    stack_total(ws0),
                ) by {}
            }
            i = i + 1;
        }
        proof {
            let t = at as int;
            lemma_ids_unique_same_ids(*old(self), *self, t);
            assert forall|u: int| 0 <= u < self.tags@.len() implies tag_focus_ok(
                #[trigger] self.tags@[u],
            ) by {
                if u != t {
                    assert(self.tags@[u] == old(self).tags@[u]);
                } else {
                    match self.tags@[u].focus {
                        Some(id) => {
                            let k = choose|k: int|
                                0 <= k < old(self).tags@[u].windows@.len() && (#[trigger] old(
                                    self,
                                ).tags@[u].windows@[k]).window == id;
                            assert(tiled_geometry(
                                ws0[k],
                                self.tags@[t].windows@[k],
                                ti,
                                count_stack_prefix(ws0, k),
                                stack_total(ws0),
                            ));
                            assert(self.tags@[u].windows@[k].window == id);
                        },
                        None => {},
                    }
                }
            }
        }
    }

    /// One refresh of the active tag: classify, then tile.
    pub fn refresh(&mut self)
        requires
            old(self).wf(),
        ensures
            final(self).wf(),
            same_except_tag(*old(self), *final(self), old(self).active_tag as int),
            final(self).tags@[old(self).active_tag as int].tag == old(self).tags@[old(
                self,
            ).active_tag as int].tag,
            final(self).tags@[old(self).active_tag as int].focus == old(self).tags@[old(
                self,
            ).active_tag as int].focus,
            final(self).active_windows().len() == old(self).active_windows().len(),
            forall|i: int|
                0 <= i < old(self).active_windows().len() ==> tiled_geometry(
                    classified_windows(old(self).active_windows())[i],
                    #[trigger] final(self).active_windows()[i],
                    old(self).tiling,
                    count_stack_prefix(classified_windows(old(self).active_windows()), i),
                    stack_total(classified_windows(old(self).active_windows())),
                ),
    {
        self.set_last_master_others_stack();
        self.tile_windows();
    }
}

impl StateHandler {
    /// `id` occurs somewhere in the store, as a client id or a frame id.
    pub open spec fn id_known(&self, id: u32) -> bool {
        exists|t: int, i: int|
            0 <= t < self.tags@.len() && 0 <= i < self.tags@[t].windows@.len() && ((
            #[trigger] self.tags@[t].windows@[i]).window == id || self.tags@[t].windows@[i].frame_window
                == id)
    }

    /// Scans every tag for `id`, as a client id or a frame id.
    pub fn any_tag_has_id(&self, id: u32) -> (r: bool)
        ensures
            r == self.id_known(id),
    {
        let nt = self.tags.len();
        let mut t: usize = 0;
        while t < nt
            invariant
                t <= nt,
                nt == self.tags@.len(),
                forall|u: int, i: int|
                    0 <= u < t && 0 <= i < self.tags@[u].windows@.len() ==> (
                    #[trigger] self.tags@[u].windows@[i]).window != id
                        && self.tags@[u].windows@[i].frame_window != id,
            decreases nt - t,
        {
            let n = self.tags[t].windows.len();
            let mut i: usize = 0;
            while i < n
                invariant
                    i <= n,
                    t < nt,
                    nt == self.tags@.len(),
                    n == self.tags@[t as int].windows@.len(),
                    forall|j: int|
                        0 <= j < i ==> (#[trigger] self.tags@[t as int].windows@[j]).window != id
                            && self.tags@[t as int].windows@[j].frame_window != id,
                decreases n - i,
            {
                if self.tags[t].windows[i].window == id || self.tags[t].windows[i].frame_window
                    == id {
                    return true;
                }
                i = i + 1;
            }
            t = t + 1;
        }
        false
    }

    /// Replaces the record at position `k` of the active tag with `w`, which
    /// must keep both ids: only geometry and group may change.
    pub fn set_window_at(&mut self, k: usize, w: WindowState)
        requires
            old(self).wf(),
            k < old(self).active_windows().len(),
            w.window == old(self).active_windows()[k as int].window,
            w.frame_window == old(self).active_windows()[k as int].frame_window,
        ensures
            final(self).wf(),
            same_except_tag(*old(self), *final(self), old(self).active_tag as int),
            final(self).active_windows() == old(self).active_windows().update(k as int, w),
            final(self).tags@[old(self).active_tag as int].tag == old(self).tags@[old(
                self,
            ).active_tag as int].tag,
            final(self).tags@[old(self).active_tag as int].focus == old(self).tags@[old(
                self,
            ).active_tag as int].focus,
    {
        let at = self.active_tag;
        self.tags[at].windows[k] = w;
        proof {
            let t = at as int;
            lemma_ids_unique_same_ids(*old(self), *self, t);
            assert forall|u: int| 0 <= u < self.tags@.len() implies tag_focus_ok(
                #[trigger] self.tags@[u],
            ) by {
                if u != t {
                    assert(self.tags@[u] == old(self).tags@[u]);
                } else {
                    match self.tags@[u].focus {
                        Some(id) => {
                            let j = choose|j: int|
                                0 <= j < old(self).tags@[u].windows@.len() && (#[trigger] old(
                                    self,
                                ).tags@[u].windows@[j]).window == id;
                            assert(self.tags@[u].windows@[j].window == id);
                        },
                        None => {},
                    }
                }
            }
        }
    }
}

/// The store after a tag switch: only the active index moves.
pub open spec fn with_active_tag(s: StateHandler, t: usize) -> StateHandler {
    StateHandler { tags: s.tags, active_tag: t, tiling: s.tiling }
}

/// In a well-formed store, an id singles out one position of the active tag:
/// if it is the client id at `k1` and matches client or frame at `k2`, the
/// two positions are the same.
pub proof fn lemma_client_index_unique(s: &StateHandler, id: u32, k1: int, k2: int)
    requires
        s.wf(),
        0 <= k1 < s.active_windows().len(),
        0 <= k2 < s.active_windows().len(),
        s.active_windows()[k1].window == id,
        s.active_windows()[k2].window == id || s.active_windows()[k2].frame_window == id,
    ensures
        k1 == k2,
{
    if k1 != k2 {
        assert(ids_disjoint(s.active_windows()[k1], s.active_windows()[k2]));
    }
}

/// The record the tiler owes a window, as a value: the functional form of
/// `tiled_geometry`.
pub open spec fn tiled_record(w: WindowState, ti: TilingInfo, si: int, s: int) -> WindowState {
    match w.group {
        WindowGroup::Master => WindowState {
            x: ti.gap as i16,
            y: (ti.gap + ti.bar_height) as i16,
            width: (if s == 0 {
                ti.width - 2 * ti.gap
            } else {
                narrow_width(ti) - 2 * ti.gap
            }) as u16,
            height: (ti.height - 2 * ti.gap - ti.bar_height) as u16,
            ..w
        },
        WindowGroup::Stack => {
            let h_slot = ti.height as int / s;
            WindowState {
                x: narrow_width(ti) as i16,
                y: (if si == 0 {
                    ti.gap + ti.bar_height
                } else {
                    si * h_slot
                }) as i16,
                width: (ti.width * ti.ratio / 1000 - ti.gap) as u16,
                height: (if si == 0 {
                    if h_slot >= 2 * ti.gap + ti.bar_height {
                        h_slot - 2 * ti.gap - ti.bar_height
                    } else {
                        0
                    }
                } else {
                    if h_slot >= ti.gap {
                        h_slot - ti.gap
                    } else {
                        0
                    }
                }) as u16,
                ..w
            }
        },
        WindowGroup::Floating => w,
    }
}

/// The whole tiler pass as a value.
pub open spec fn tiled_windows(ws: Seq<WindowState>, ti: TilingInfo) -> Seq<WindowState> {
    Seq::new(ws.len(), |i: int| tiled_record(ws[i], ti, count_stack_prefix(ws, i), stack_total(ws)))
}

/// The window list a refresh leaves behind: classified, then tiled.
pub open spec fn spec_refresh(ws: Seq<WindowState>, ti: TilingInfo) -> Seq<WindowState> {
    tiled_windows(classified_windows(ws), ti)
}

/// The geometry relation pins the output record: a window satisfying
/// `tiled_geometry` is exactly `tiled_record`.
pub proof fn lemma_tiled_is_record(w: WindowState, v: WindowState, ti: TilingInfo, si: int, s: int)
    requires
        tiled_geometry(w, v, ti, si, s),
    ensures
        v == tiled_record(w, ti, si, s),
{
}

/// A list satisfying the refresh relation is exactly `spec_refresh` of the
/// list it came from.
pub proof fn lemma_refresh_functional(pre: Seq<WindowState>, post: Seq<WindowState>, ti: TilingInfo)
    requires
        post.len() == pre.len(),
        forall|i: int|
            0 <= i < pre.len() ==> tiled_geometry(
                classified_windows(pre)[i],
                #[trigger] post[i],
                ti,
                count_stack_prefix(classified_windows(pre), i),
                stack_total(classified_windows(pre)),
            ),
    ensures
        post == spec_refresh(pre, ti),
{
    let cls = classified_windows(pre);
    assert forall|i: int| 0 <= i < pre.len() implies #[trigger] post[i] == tiled_record(
        cls[i],
        ti,
        count_stack_prefix(cls, i),
        stack_total(cls),
    ) by {
        lemma_tiled_is_record(
            cls[i],
            post[i],
            ti,
            count_stack_prefix(cls, i),
            stack_total(cls),
        );
    }
    assert(post =~= spec_refresh(pre, ti));
}

/// The unsigned wrapped step computed by `switch_focus_next` lands on the
/// Euclidean remainder of `fi + change`.
pub(crate) proof fn lemma_step_is_euclidean(fi: int, change: int, step: int, ni: int, n: int)
    requires
        n > 0,
        0 <= fi < n,
        0 <= step < n,
        (change >= 0 && step == change % n) || (change < 0 && ((-change) % n == 0 ==> step == 0) && (
        (-change) % n != 0 ==> step == n - ((-change) % n))),
        ni == if step < n - fi {
            fi + step
        } else {
            step - (n - fi)
        },
    ensures
        ni == (fi + change) % n,
{
    vstd::arithmetic::div_mod::lemma_fundamental_div_mod(change, n);
    vstd::arithmetic::div_mod::lemma_mod_division_less_than_divisor(change, n);
    // The Euclidean remainder of `change` lies in [0, n) and equals `step`
    // in every branch of the hypothesis.
    let r = change % n;
    if change < 0 {
        vstd::arithmetic::div_mod::lemma_fundamental_div_mod(-change, n);
        vstd::arithmetic::div_mod::lemma_mod_division_less_than_divisor(-change, n);
        assert(change == n * (change / n) + r);
        assert(-change == n * ((-change) / n) + ((-change) % n));
        assert(r == step) by {
            let qq = (-change) / n;
            assert(change == -(n * qq) - ((-change) % n));
            if (-change) % n == 0 {
                assert(change == n * (-qq) + 0) by {
                    assert(n * (-qq) == -(n * qq)) by (nonlinear_arith);
                }
                vstd::arithmetic::div_mod::lemma_fundamental_div_mod_converse_mod(
                    change,
                    n,
                    -qq,
                    0,
                );
            } else {
                assert(change == n * (-qq - 1) + (n - ((-change) % n))) by {
                    assert(n * (-qq - 1) == -(n * qq) - n) by (nonlinear_arith);
                }
                vstd::arithmetic::div_mod::lemma_fundamental_div_mod_converse_mod(
                    change,
                    n,
                    -qq - 1,
                    n - ((-change) % n),
                );
            }
        }
    } else {
        assert(r == step);
    }
    assert(change == n * (change / n) + step);
    if step < n - fi {
        assert(fi + change == n * (change / n) + (fi + step));
        vstd::arithmetic::div_mod::lemma_fundamental_div_mod_converse_mod(
            fi + change,
            n,
            change / n,
            fi + step,
        );
    } else {
        assert(fi + change == n * (change / n + 1) + (fi + step - n)) by {
            assert(n * (change / n + 1) == n * (change / n) + n) by (nonlinear_arith);
        }
        vstd::arithmetic::div_mod::lemma_fundamental_div_mod_converse_mod(
            fi + change,
            n,
            change / n + 1,
            fi + step - n,
        );
    }
}

} // verus!

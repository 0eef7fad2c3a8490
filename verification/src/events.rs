//! The event router: one function from the manager's state and an inbound
//! event to the next state and the display requests it owes. The requests
//! come back as plain action values, performed in order by the caller that
//! owns the connection; the router holds no connection itself.

use vstd::prelude::*;

use crate::keys::lookup_hotkey;
use crate::keys::HotkeyAction;
use crate::keys::KeyHandler;
use crate::state::clamp_ratio;
use crate::state::same_except_tag;
use crate::state::spec_refresh;
use crate::state::swap_master_windows;
use crate::state::tag_has_client;
use crate::state::StateHandler;
use crate::state::TilingInfo;
use crate::state::WindowGroup;
use crate::state::WindowState;
use crate::state::TAG_COUNT;

verus! {

/// An inbound X event, reduced to the plain values the router reads.
/// A MapRequest carries a freshly generated id for the window's frame.
pub enum WmEvent {
    MapRequest { window: u32, frame: u32 },
    UnmapNotify { window: u32 },
    KeyPress { state: u16, detail: u8 },
    EnterNotify { child: u32, event: u32 },
    ConfigureRequest {
        window: u32,
        x: i16,
        y: i16,
        width: u16,
        height: u16,
        border_width: u16,
        sibling: u32,
        stack_mode: u8,
        value_mask: u16,
    },
    ClientMessage { window: u32, type_atom: u32, data0: u32, data1: u32 },
}

/// One display request the router owes: performed in order by the caller.
#[derive(PartialEq, Eq, Debug, Clone)]
pub enum WmAction {
    /// Wrap the client in its frame: create the frame window, select events,
    /// grab the server, put the client in the save-set, reparent and map.
    CreateFrame(WindowState),
    /// Undo adoption: drop the client from the save-set, reparent it back to
    /// the root at the record's coordinates, destroy the frame.
    DestroyFrame(WindowState),
    MapWindow(WindowState),
    UnmapWindow(WindowState),
    /// Push the record's geometry to the frame and the client.
    Configure(WindowState),
    /// Forward a configure request of an unmanaged or managed window; the
    /// mask says which fields the client asked for.
    ConfigureForward {
        window: u32,
        x: i16,
        y: i16,
        width: u16,
        height: u16,
        border_width: u16,
        sibling: u32,
        stack_mode: u8,
        value_mask: u16,
    },
    /// Set input focus on the record's client and repaint the frame borders.
    SetFocus(WindowState),
    SetFocusRoot,
    /// Send the focused client a WM_DELETE_WINDOW client message.
    KillFocus(u32),
    /// Write the fullscreen geometry and the fullscreen state atom.
    SetFullscreen(WindowState),
    /// Clear the fullscreen state atom of the client.
    RemoveFullscreenProp(u32),
    /// Run a command line through the shell, fire and forget.
    Spawn(String),
    DrawBar,
}

/// The sibling and stack-mode bits of a configure request's value mask; the
/// rest are the position, size and border-width bits.
pub const CONFIG_MASK_KEEP: u16 = 31;

/// One Configure action for every window of the list, in order.
pub open spec fn configure_actions(ws: Seq<WindowState>) -> Seq<WmAction> {
    Seq::new(ws.len(), |i: int| WmAction::Configure(ws[i]))
}

/// One Unmap action for every window of the list, in order.
pub open spec fn unmap_actions(ws: Seq<WindowState>) -> Seq<WmAction> {
    Seq::new(ws.len(), |i: int| WmAction::UnmapWindow(ws[i]))
}

/// One Map action for every window of the list, in order.
pub open spec fn map_actions(ws: Seq<WindowState>) -> Seq<WmAction> {
    Seq::new(ws.len(), |i: int| WmAction::MapWindow(ws[i]))
}

/// The tail every state-changing handler appends: configure every window of
/// the active tag, re-apply focus (on the focused record, or on the root
/// when nothing is focused), and redraw the bar. `s` is the state after the
/// refresh.
pub open spec fn refresh_tail_actions(s: StateHandler) -> Seq<WmAction> {
    configure_actions(s.active_windows()) + (match s.tags@[s.active_tag as int].focus {
        Some(f) => {
            if tag_has_client(s.tags@[s.active_tag as int], f) {
                seq![
                    WmAction::SetFocus(
                        s.active_windows()[choose|k: int|
                            0 <= k < s.active_windows().len() && (#[trigger] s.active_windows()[
                            k]).window == f],
                    ),
                ]
            } else {
                Seq::empty()
            }
        },
        None => seq![WmAction::SetFocusRoot],
    }) + seq![WmAction::DrawBar]
}

/// The record a client's fullscreen request turns it into: Floating, at the
/// origin, as large as the screen.
pub open spec fn fullscreen_record(w: WindowState, ti: TilingInfo) -> WindowState {
    WindowState {
        x: 0,
        y: 0,
        width: ti.width,
        height: ti.height,
        group: WindowGroup::Floating,
        ..w
    }
}

/// The router: the state store, the hotkey resolver, and the two interned
/// atoms the fullscreen client message is recognized by.
pub struct EventHandler {
    pub man: StateHandler,
    pub key: KeyHandler,
    pub net_wm_state_atom: u32,
    pub net_wm_fullscreen_atom: u32,
}

impl EventHandler {
    /// The resolver and the atom ids are start-up constants: only the store
    /// changes.
    pub open spec fn same_but_man(pre: EventHandler, post: EventHandler) -> bool {
        &&& post.key == pre.key
        &&& post.net_wm_state_atom == pre.net_wm_state_atom
        &&& post.net_wm_fullscreen_atom == pre.net_wm_fullscreen_atom
    }

    /// The store was refreshed in place: the active tag's windows were
    /// re-classified and re-tiled, everything else stands.
    pub open spec fn man_refreshed(pre: StateHandler, post: StateHandler) -> bool {
        &&& post.wf()
        &&& same_except_tag(pre, post, pre.active_tag as int)
        &&& post.tags@[pre.active_tag as int].tag == pre.tags@[pre.active_tag as int].tag
        &&& post.tags@[pre.active_tag as int].focus == pre.tags@[pre.active_tag as int].focus
        &&& post.active_windows() == spec_refresh(pre.active_windows(), pre.tiling)
    }

    /// Refreshes the active tag and appends the owed display requests:
    /// configure every window, re-apply focus, redraw the bar.
    fn refresh(&mut self, out: &mut Vec<WmAction>)
        requires
            old(self).man.wf(),
        ensures
            Self::same_but_man(*old(self), *final(self)),
            Self::man_refreshed(old(self).man, final(self).man),
            final(out)@ == old(out)@ + refresh_tail_actions(final(self).man),
    {
        let ghost pre_man = old(self).man;
        self.man.refresh();
        proof {
            crate::state::lemma_refresh_functional(
                pre_man.active_windows(),
                self.man.active_windows(),
                pre_man.tiling,
            );
        }
        let ghost mid = *out;
        let n = self.man.get_active_tag_windows().len();
        let mut i: usize = 0;
        while i < n
            invariant
                i <= n,
                self.man.wf(),
                n == self.man.active_windows().len(),
                out@ == mid@ + configure_actions(self.man.active_windows()).take(i as int),
            decreases n - i,
        {
            let w = self.man.window_at(i);
            out.push(WmAction::Configure(w));
            proof {
                assert(out@ =~= mid@ + configure_actions(self.man.active_windows()).take(
                    i as int + 1,
                ));
            }
            i = i + 1;
        }
        proof {
            assert(configure_actions(self.man.active_windows()).take(n as int)
                =~= configure_actions(self.man.active_windows()));
        }
        match self.man.get_focus() {
            Some(f) => {
                let fi = match self.man.get_index_of_window(f) {
                    Some(k) => k,
                    None => {
                        proof {
                            let k = choose|k: int|
                                0 <= k < self.man.active_windows().len() && (
                                #[trigger] self.man.active_windows()[k]).window == f;
                            assert(false);
                        }
                        return ;
                    },
                };
                let w = self.man.window_at(fi);
                proof {
                    let ws = self.man.active_windows();
                    let k = choose|k: int| 0 <= k < ws.len() && (#[trigger] ws[k]).window == f;
                    if ws[fi as int].window != f {
                        assert(k != fi);
                        assert(crate::state::ids_disjoint(ws[k], ws[fi as int]));
                        assert(false);
                    }
                    if k != fi {
                        assert(crate::state::ids_disjoint(ws[k], ws[fi as int]));
                        assert(false);
                    }
                    assert(w == ws[k]);
                }
                out.push(WmAction::SetFocus(w));
            },
            None => {
                out.push(WmAction::SetFocusRoot);
            },
        }
        out.push(WmAction::DrawBar);
        proof {
            assert(out@ =~= mid@ + refresh_tail_actions(self.man));
        }
    }
}

/// The client id of the record whose client or frame id is `id`, if any.
/// In a well-formed store at most one record matches.
pub open spec fn matching_client(ws: Seq<WindowState>, id: u32) -> Option<u32> {
    if exists|k: int|
        0 <= k < ws.len() && ((#[trigger] ws[k]).window == id || ws[k].frame_window == id) {
        Some(
            ws[choose|k: int|
                0 <= k < ws.len() && ((#[trigger] ws[k]).window == id || ws[k].frame_window
                    == id)].window,
        )
    } else {
        None
    }
}

impl EventHandler {
    /// What a MapRequest leaves behind: an already-known client (or a frame
    /// id collision) is ignored; otherwise the client is adopted at the end
    /// of the active tag, focused, framed and the tag refreshed.
    pub open spec fn map_request_post(
        pre: EventHandler,
        post: EventHandler,
        acts: Seq<WmAction>,
        window: u32,
        frame: u32,
    ) -> bool {
        if pre.man.id_known(window) || pre.man.id_known(frame) || window == frame {
            &&& post == pre
            &&& acts == Seq::<WmAction>::empty()
        } else {
            let w = WindowState {
                window,
                frame_window: frame,
                x: 0,
                y: 0,
                width: 100,
                height: 100,
                group: WindowGroup::Stack,
            };
            let at = pre.man.active_tag as int;
            &&& Self::same_but_man(pre, post)
            &&& post.man.wf()
            &&& same_except_tag(pre.man, post.man, at)
            &&& post.man.tags@[at].tag == pre.man.tags@[at].tag
            &&& post.man.tags@[at].focus == Some(window)
            &&& post.man.active_windows() == spec_refresh(
                pre.man.active_windows().push(w),
                pre.man.tiling,
            )
            &&& acts == seq![WmAction::CreateFrame(w)] + refresh_tail_actions(post.man)
        }
    }

    /// MapRequest: adopt an unknown client into the active tag and refresh.
    pub fn handle_map_request(&mut self, window: u32, frame: u32) -> (r: Vec<WmAction>)
        requires
            old(self).man.wf(),
        ensures
            Self::map_request_post(*old(self), *final(self), r@, window, frame),
    {
        let mut out: Vec<WmAction> = Vec::new();
        if self.man.any_tag_has_id(window) || self.man.any_tag_has_id(frame) || window == frame {
            return out;
        }
        let w = WindowState::new(window, frame);
        proof {
            assert forall|t: int, i: int|
                0 <= t < self.man.tags@.len() && 0 <= i
                    < self.man.tags@[t].windows@.len() implies crate::state::ids_disjoint(
                w,
                #[trigger] self.man.tags@[t].windows@[i],
            ) by {
                assert(!((self.man.tags@[t].windows@[i]).window == window
                    || self.man.tags@[t].windows@[i].frame_window == window));
                assert(!((self.man.tags@[t].windows@[i]).window == frame
                    || self.man.tags@[t].windows@[i].frame_window == frame));
            }
            assert(self.man.fresh_ids(w));
        }
        out.push(WmAction::CreateFrame(w));
        self.man.add_window(w);
        self.refresh(&mut out);
        proof {
            assert(out@ =~= seq![WmAction::CreateFrame(w)] + refresh_tail_actions(self.man));
        }
        out
    }

    /// What an UnmapNotify leaves behind: a client of the active tag is
    /// released (frame destroyed, record dropped, focus re-seated on the
    /// master) and the tag refreshed; anything else is ignored.
    pub open spec fn unmap_post(
        pre: EventHandler,
        post: EventHandler,
        acts: Seq<WmAction>,
        window: u32,
    ) -> bool {
        let ws = pre.man.active_windows();
        let at = pre.man.active_tag as int;
        if exists|k: int| 0 <= k < ws.len() && (#[trigger] ws[k]).window == window {
            forall|k: int|
                0 <= k < ws.len() && (#[trigger] ws[k]).window == window ==> {
                    &&& Self::same_but_man(pre, post)
                    &&& post.man.wf()
                    &&& same_except_tag(pre.man, post.man, at)
                    &&& post.man.tags@[at].tag == pre.man.tags@[at].tag
                    &&& post.man.active_windows() == spec_refresh(ws.remove(k), pre.man.tiling)
                    &&& post.man.tags@[at].focus == (if ws.remove(k).len() > 0 {
                        Some(ws.remove(k).last().window)
                    } else {
                        None::<u32>
                    })
                    &&& acts == seq![WmAction::DestroyFrame(ws[k])] + refresh_tail_actions(post.man)
                }
        } else {
            &&& post == pre
            &&& acts == Seq::<WmAction>::empty()
        }
    }

    /// UnmapNotify: release a managed client of the active tag and refresh.
    pub fn handle_unmap_notify(&mut self, window: u32) -> (r: Vec<WmAction>)
        requires
            old(self).man.wf(),
        ensures
            Self::unmap_post(*old(self), *final(self), r@, window),
    {
        let mut out: Vec<WmAction> = Vec::new();
        let ws = self.man.get_active_tag_windows();
        let n = ws.len();
        let mut k: usize = 0;
        while k < n
            invariant
                k <= n,
                self == old(self),
                old(self).man.wf(),
                n == self.man.active_windows().len(),
                out@ == Seq::<WmAction>::empty(),
                forall|j: int|
                    0 <= j < k ==> (#[trigger] self.man.active_windows()[j]).window != window,
            decreases n - k,
        {
            if self.man.window_at(k).window == window {
                let rec = self.man.window_at(k);
                out.push(WmAction::DestroyFrame(rec));
                self.man.remove_window_at(k);
                self.refresh(&mut out);
                proof {
                    let pre = old(self).man;
                    assert forall|j: int|
                        0 <= j < pre.active_windows().len() && (#[trigger] pre.active_windows()[
                        j]).window == window implies j == k as int by {
                        crate::state::lemma_client_index_unique(&pre, window, j, k as int);
                    }
                    assert(out@ =~= seq![WmAction::DestroyFrame(rec)] + refresh_tail_actions(
                        self.man,
                    ));
                }
                return out;
            }
            k = k + 1;
        }
        out
    }

    /// What an EnterNotify leaves behind: the focus lands on the client the
    /// pointer entered (the event's child, overridden by the event window
    /// when both are managed), and the tag is refreshed.
    pub open spec fn enter_post(
        pre: EventHandler,
        post: EventHandler,
        acts: Seq<WmAction>,
        child: u32,
        event: u32,
    ) -> bool {
        let ws = pre.man.active_windows();
        let at = pre.man.active_tag as int;
        let focus2 = match matching_client(ws, event) {
            Some(c) => Some(c),
            None => match matching_client(ws, child) {
                Some(c) => Some(c),
                None => pre.man.tags@[at].focus,
            },
        };
        &&& Self::same_but_man(pre, post)
        &&& post.man.wf()
        &&& same_except_tag(pre.man, post.man, at)
        &&& post.man.tags@[at].tag == pre.man.tags@[at].tag
        &&& post.man.active_windows() == spec_refresh(ws, pre.man.tiling)
        &&& post.man.tags@[at].focus == focus2
        &&& acts == refresh_tail_actions(post.man)
    }

    /// EnterNotify: focus follows the pointer onto a managed window.
    pub fn handle_enter(&mut self, child: u32, event: u32) -> (r: Vec<WmAction>)
        requires
            old(self).man.wf(),
        ensures
            Self::enter_post(*old(self), *final(self), r@, child, event),
    {
        let mut out: Vec<WmAction> = Vec::new();
        let ghost ws = self.man.active_windows();
        match self.man.get_index_of_window(child) {
            Some(k) => {
                self.man.focus_window_at(k);
                proof {
                    let kk = choose|j: int|
                        0 <= j < ws.len() && ((#[trigger] ws[j]).window == child
                            || ws[j].frame_window == child);
                    if kk != k {
                        assert(crate::state::ids_disjoint(ws[kk], ws[k as int]));
                    }
                    assert(matching_client(ws, child) == Some(ws[k as int].window));
                }
            },
            None => {
                proof {
                    assert(matching_client(ws, child) is None);
                }
            },
        }
        match self.man.get_index_of_window(event) {
            Some(k) => {
                self.man.focus_window_at(k);
                proof {
                    let kk = choose|j: int|
                        0 <= j < ws.len() && ((#[trigger] ws[j]).window == event
                            || ws[j].frame_window == event);
                    if kk != k {
                        assert(crate::state::ids_disjoint(ws[kk], ws[k as int]));
                    }
                    assert(matching_client(ws, event) == Some(ws[k as int].window));
                }
            },
            None => {
                proof {
                    assert(matching_client(ws, event) is None);
                }
            },
        }
        self.refresh(&mut out);
        out
    }

    /// What a ConfigureRequest leaves behind: the state is untouched; the
    /// request is forwarded, with the sibling and stack-mode fields stripped
    /// when the window is managed in the active tag.
    pub open spec fn config_post(
        pre: EventHandler,
        post: EventHandler,
        acts: Seq<WmAction>,
        window: u32,
        x: i16,
        y: i16,
        width: u16,
        height: u16,
        border_width: u16,
        sibling: u32,
        stack_mode: u8,
        value_mask: u16,
    ) -> bool {
        let ws = pre.man.active_windows();
        let known = exists|k: int|
            0 <= k < ws.len() && ((#[trigger] ws[k]).window == window || ws[k].frame_window
                == window);
        &&& post == pre
        &&& acts == seq![
            WmAction::ConfigureForward {
                window,
                x,
                y,
                width,
                height,
                border_width,
                sibling,
                stack_mode,
                value_mask: if known {
                    value_mask & CONFIG_MASK_KEEP
                } else {
                    value_mask
                },
            },
        ]
    }

    /// ConfigureRequest: forward, stripping sibling and stacking order for
    /// managed windows.
    pub fn handle_config(
        &mut self,
        window: u32,
        x: i16,
        y: i16,
        width: u16,
        height: u16,
        border_width: u16,
        sibling: u32,
        stack_mode: u8,
        value_mask: u16,
    ) -> (r: Vec<WmAction>)
        requires
            old(self).man.wf(),
        ensures
            Self::config_post(
                *old(self),
                *final(self),
                r@,
                window,
                x,
                y,
                width,
                height,
                border_width,
                sibling,
                stack_mode,
                value_mask,
            ),
    {
        let mut out: Vec<WmAction> = Vec::new();
        let mask = match self.man.get_index_of_window(window) {
            Some(_) => value_mask & CONFIG_MASK_KEEP,
            None => value_mask,
        };
        out.push(
            WmAction::ConfigureForward {
                window,
                x,
                y,
                width,
                height,
                border_width,
                sibling,
                stack_mode,
                value_mask: mask,
            },
        );
        out
    }

    /// Switches the visible tag: unmap the windows of the leaving tag, move
    /// the index, map the windows of the entering tag. A switch to the tag
    /// already active does nothing.
    fn change_active_tag(&mut self, tag: usize, out: &mut Vec<WmAction>)
        requires
            old(self).man.wf(),
            tag < TAG_COUNT,
        ensures
            Self::same_but_man(*old(self), *final(self)),
            final(self).man.wf(),
            if tag == old(self).man.active_tag {
                &&& final(self).man == old(self).man
                &&& final(out)@ == old(out)@
            } else {
                &&& final(self).man.tags == old(self).man.tags
                &&& final(self).man.tiling == old(self).man.tiling
                &&& final(self).man.active_tag == tag
                &&& final(out)@ == old(out)@ + unmap_actions(old(self).man.active_windows())
                    + map_actions(old(self).man.tags@[tag as int].windows@)
            },
    {
        if self.man.active_tag == tag {
            return ;
        }
        let ghost mid0 = *out;
        let n = self.man.get_active_tag_windows().len();
        let mut i: usize = 0;
        while i < n
            invariant
                i <= n,
                self == old(self),
                old(self).man.wf(),
                n == self.man.active_windows().len(),
                out@ == mid0@ + unmap_actions(self.man.active_windows()).take(i as int),
            decreases n - i,
        {
            let w = self.man.window_at(i);
            out.push(WmAction::UnmapWindow(w));
            proof {
                assert(out@ =~= mid0@ + unmap_actions(self.man.active_windows()).take(i as int + 1));
            }
            i = i + 1;
        }
        proof {
            assert(unmap_actions(self.man.active_windows()).take(n as int) =~= unmap_actions(
                self.man.active_windows(),
            ));
        }
        self.man.set_active_tag(tag);
        let ghost mid1 = *out;
        let m = self.man.get_active_tag_windows().len();
        let mut j: usize = 0;
        while j < m
            invariant
                j <= m,
                self.man.wf(),
                self.man == (StateHandler {
                    active_tag: tag,
                    tags: old(self).man.tags,
                    tiling: old(self).man.tiling,
                }),
                Self::same_but_man(*old(self), *self),
                tag < TAG_COUNT,
                m == self.man.active_windows().len(),
                out@ == mid1@ + map_actions(self.man.active_windows()).take(j as int),
            decreases m - j,
        {
            let w = self.man.window_at(j);
            out.push(WmAction::MapWindow(w));
            proof {
                assert(out@ =~= mid1@ + map_actions(self.man.active_windows()).take(j as int + 1));
            }
            j = j + 1;
        }
        proof {
            assert(map_actions(self.man.active_windows()).take(m as int) =~= map_actions(
                self.man.active_windows(),
            ));
            assert(out@ =~= mid0@ + unmap_actions(old(self).man.active_windows()) + map_actions(
                old(self).man.tags@[tag as int].windows@,
            ));
        }
    }

    /// Moves the focused client of the active tag to the end of tag `tag`,
    /// unmapping it and re-seating the source tag's focus on its master.
    /// Without a focus, or onto the active tag itself, this does nothing.
    fn move_window(&mut self, tag: usize, out: &mut Vec<WmAction>)
        requires
            old(self).man.wf(),
            tag < TAG_COUNT,
        ensures
            Self::same_but_man(*old(self), *final(self)),
            final(self).man.wf(),
            match old(self).man.tags@[old(self).man.active_tag as int].focus {
                None => final(self).man == old(self).man && final(out)@ == old(out)@,
                Some(f) => {
                    if tag == old(self).man.active_tag {
                        &&& final(self).man == old(self).man
                        &&& final(out)@ == old(out)@
                    } else {
                        forall|k: int|
                            0 <= k < old(self).man.active_windows().len() && (#[trigger] old(
                                self,
                            ).man.active_windows()[k]).window == f ==> {
                                let ws = old(self).man.active_windows();
                                let at = old(self).man.active_tag as int;
                                &&& final(self).man.active_tag == old(self).man.active_tag
                                &&& final(self).man.tiling == old(self).man.tiling
                                &&& final(self).man.active_windows() == ws.remove(k)
                                &&& final(self).man.tags@[tag as int].windows@ == old(
                                    self,
                                ).man.tags@[tag as int].windows@.push(ws[k])
                                &&& final(self).man.tags@[tag as int].focus == old(
                                    self,
                                ).man.tags@[tag as int].focus
                                &&& forall|u: int|
                                    0 <= u < TAG_COUNT && u != at && u != tag
                                        ==> final(self).man.tags@[u] == old(self).man.tags@[u]
                                &&& final(self).man.tags@[at].focus == (if ws.remove(k).len() > 0 {
                                    Some(ws.remove(k).last().window)
                                } else {
                                    None::<u32>
                                })
                                &&& final(out)@ == old(out)@ + seq![WmAction::UnmapWindow(ws[k])]
                            }
                    }
                },
            },
    {
        if self.man.active_tag == tag {
            return ;
        }
        let f: u32 = match self.man.get_focus() {
            Some(w) => w,
            None => {
                return ;
            },
        };
        let fi: usize = match self.man.get_index_of_window(f) {
            Some(i) => i,
            None => {
                proof {
                    let k = choose|k: int|
                        0 <= k < self.man.active_windows().len() && (
                        #[trigger] self.man.active_windows()[k]).window == f;
                    assert(false);
                }
                return ;
            },
        };
        let rec = self.man.window_at(fi);
        proof {
            let ws = old(self).man.active_windows();
            if ws[fi as int].window != f {
                let k = choose|k: int| 0 <= k < ws.len() && (#[trigger] ws[k]).window == f;
                crate::state::lemma_client_index_unique(&old(self).man, f, k, fi as int);
                assert(false);
            }
            assert forall|k: int|
                0 <= k < ws.len() && (#[trigger] ws[k]).window == f implies k == fi as int by {
                crate::state::lemma_client_index_unique(&old(self).man, f, k, fi as int);
            }
        }
        out.push(WmAction::UnmapWindow(rec));
        self.man.remove_window_at(fi);
        self.man.push_to_tag(tag, rec);
        proof {
            assert(out@ =~= old(out)@ + seq![WmAction::UnmapWindow(rec)]);
        }
    }

    /// The Euclidean wrap of a tag step: the tag `d` places away from
    /// `active`, in either direction.
    fn wrap_tag(active: usize, d: i16) -> (r: usize)
        requires
            active < TAG_COUNT,
        ensures
            r < TAG_COUNT,
            r as int == (active as int + d as int) % (TAG_COUNT as int),
    {
        let n: usize = TAG_COUNT;
        let step: usize = if d >= 0 {
            (d as usize) % n
        } else {
            let neg = ((-(d as i32)) as usize) % n;
            if neg == 0 {
                0
            } else {
                n - neg
            }
        };
        let r = if step < n - active {
            active + step
        } else {
            step - (n - active)
        };
        proof {
            crate::state::lemma_step_is_euclidean(
                active as int,
                d as int,
                step as int,
                r as int,
                n as int,
            );
        }
        r
    }

    /// What a tag switch followed by a refresh leaves behind: the entering
    /// tag `t` is refreshed; a switch onto the active tag only refreshes.
    pub open spec fn switch_post(
        pre: EventHandler,
        post: EventHandler,
        acts: Seq<WmAction>,
        t: int,
    ) -> bool {
        if t == pre.man.active_tag {
            &&& Self::man_refreshed(pre.man, post.man)
            &&& acts == refresh_tail_actions(post.man)
        } else {
            &&& post.man.wf()
            &&& post.man.active_tag == t
            &&& post.man.tiling == pre.man.tiling
            &&& forall|u: int| 0 <= u < TAG_COUNT && u != t ==> post.man.tags@[u] == pre.man.tags@[u]
            &&& post.man.tags@[t].windows@ == spec_refresh(
                pre.man.tags@[t].windows@,
                pre.man.tiling,
            )
            &&& post.man.tags@[t].focus == pre.man.tags@[t].focus
            &&& post.man.tags@[t].tag == pre.man.tags@[t].tag
            &&& acts == unmap_actions(pre.man.active_windows()) + map_actions(
                pre.man.tags@[t].windows@,
            ) + refresh_tail_actions(post.man)
        }
    }

    /// What moving the focused window to tag `t` and refreshing leaves
    /// behind.
    pub open spec fn move_post(
        pre: EventHandler,
        post: EventHandler,
        acts: Seq<WmAction>,
        t: int,
    ) -> bool {
        let ws = pre.man.active_windows();
        let at = pre.man.active_tag as int;
        match pre.man.tags@[at].focus {
            None => {
                &&& Self::man_refreshed(pre.man, post.man)
                &&& acts == refresh_tail_actions(post.man)
            },
            Some(f) => {
                if t == at {
                    &&& Self::man_refreshed(pre.man, post.man)
                    &&& acts == refresh_tail_actions(post.man)
                } else {
                    forall|k: int|
                        0 <= k < ws.len() && (#[trigger] ws[k]).window == f ==> {
                            &&& post.man.wf()
                            &&& post.man.active_tag == pre.man.active_tag
                            &&& post.man.tiling == pre.man.tiling
                            &&& post.man.active_windows() == spec_refresh(
                                ws.remove(k),
                                pre.man.tiling,
                            )
                            &&& post.man.tags@[t].windows@ == pre.man.tags@[t].windows@.push(ws[k])
                            &&& post.man.tags@[t].focus == pre.man.tags@[t].focus
                            &&& forall|u: int|
                                0 <= u < TAG_COUNT && u != at && u != t ==> post.man.tags@[u]
                                    == pre.man.tags@[u]
                            &&& post.man.tags@[at].focus == (if ws.remove(k).len() > 0 {
                                Some(ws.remove(k).last().window)
                            } else {
                                None::<u32>
                            })
                            &&& acts == seq![WmAction::UnmapWindow(ws[k])] + refresh_tail_actions(
                                post.man,
                            )
                        }
                }
            },
        }
    }

    /// What a key press leaves behind, by the action the resolver finds:
    /// every state-changing action ends in a refresh of the active tag.
    pub open spec fn keypress_post(
        pre: EventHandler,
        post: EventHandler,
        acts: Seq<WmAction>,
        state: u16,
        detail: u8,
    ) -> bool {
        let ws = pre.man.active_windows();
        let at = pre.man.active_tag as int;
        match lookup_hotkey(pre.key.hotkeys@, state, detail as u32) {
            None => post == pre && acts == Seq::<WmAction>::empty(),
            Some(action) => {
                &&& Self::same_but_man(pre, post)
                &&& match action {
                    HotkeyAction::Spawn(cmd) => {
                        &&& Self::man_refreshed(pre.man, post.man)
                        &&& acts == seq![WmAction::Spawn(cmd)] + refresh_tail_actions(post.man)
                    },
                    HotkeyAction::ExitFocusedWindow => {
                        match pre.man.tags@[at].focus {
                            None => post == pre && acts == Seq::<WmAction>::empty(),
                            Some(f) => {
                                &&& Self::man_refreshed(pre.man, post.man)
                                &&& acts == seq![WmAction::KillFocus(f)] + refresh_tail_actions(
                                    post.man,
                                )
                            },
                        }
                    },
                    HotkeyAction::SwitchTag(n) => {
                        if 1 <= n <= TAG_COUNT {
                            Self::switch_post(pre, post, acts, n - 1)
                        } else {
                            &&& Self::man_refreshed(pre.man, post.man)
                            &&& acts == refresh_tail_actions(post.man)
                        }
                    },
                    HotkeyAction::MoveWindow(n) => {
                        if 1 <= n <= TAG_COUNT {
                            Self::move_post(pre, post, acts, n - 1)
                        } else {
                            &&& Self::man_refreshed(pre.man, post.man)
                            &&& acts == refresh_tail_actions(post.man)
                        }
                    },
                    HotkeyAction::ChangeRatio(d) => {
                        let ti2 = TilingInfo {
                            ratio: clamp_ratio(pre.man.tiling.ratio + d),
                            ..pre.man.tiling
                        };
                        &&& post.man.wf()
                        &&& post.man.tiling == ti2
                        &&& post.man.active_tag == pre.man.active_tag
                        &&& forall|u: int|
                            0 <= u < TAG_COUNT && u != at ==> post.man.tags@[u] == pre.man.tags@[u]
                        &&& post.man.tags@[at].focus == pre.man.tags@[at].focus
                        &&& post.man.tags@[at].tag == pre.man.tags@[at].tag
                        &&& post.man.active_windows() == spec_refresh(ws, ti2)
                        &&& acts == refresh_tail_actions(post.man)
                    },
                    HotkeyAction::NextFocus(d) => {
                        match pre.man.tags@[at].focus {
                            None => {
                                &&& Self::man_refreshed(pre.man, post.man)
                                &&& acts == refresh_tail_actions(post.man)
                            },
                            Some(f) => forall|fi: int|
                                0 <= fi < ws.len() && (#[trigger] ws[fi]).window == f ==> {
                                    &&& post.man.wf()
                                    &&& post.man.active_tag == pre.man.active_tag
                                    &&& post.man.tiling == pre.man.tiling
                                    &&& forall|u: int|
                                        0 <= u < TAG_COUNT && u != at ==> post.man.tags@[u]
                                            == pre.man.tags@[u]
                                    &&& post.man.active_windows() == spec_refresh(
                                        ws,
                                        pre.man.tiling,
                                    )
                                    &&& post.man.tags@[at].focus == Some(
                                        ws[(fi + d as int) % (ws.len() as int)].window,
                                    )
                                    &&& acts == refresh_tail_actions(post.man)
                                },
                        }
                    },
                    HotkeyAction::NextTag(d) => Self::switch_post(
                        pre,
                        post,
                        acts,
                        (pre.man.active_tag + d as int) % (TAG_COUNT as int),
                    ),
                    HotkeyAction::SwapMaster => {
                        match pre.man.tags@[at].focus {
                            None => {
                                &&& Self::man_refreshed(pre.man, post.man)
                                &&& acts == refresh_tail_actions(post.man)
                            },
                            Some(f) => forall|fi: int|
                                0 <= fi < ws.len() && (#[trigger] ws[fi]).window == f ==> {
                                    &&& post.man.wf()
                                    &&& post.man.active_tag == pre.man.active_tag
                                    &&& post.man.tiling == pre.man.tiling
                                    &&& forall|u: int|
                                        0 <= u < TAG_COUNT && u != at ==> post.man.tags@[u]
                                            == pre.man.tags@[u]
                                    &&& post.man.active_windows() == spec_refresh(
                                        swap_master_windows(ws, f, fi),
                                        pre.man.tiling,
                                    )
                                    &&& post.man.tags@[at].focus == pre.man.tags@[at].focus
                                    &&& acts == refresh_tail_actions(post.man)
                                },
                        }
                    },
                }
            },
        }
    }

    /// Refresh alone: what a no-op action still owes the display.
    fn kp_refresh_only(&mut self) -> (r: Vec<WmAction>)
        requires
            old(self).man.wf(),
        ensures
            Self::same_but_man(*old(self), *final(self)),
            Self::man_refreshed(old(self).man, final(self).man),
            r@ == refresh_tail_actions(final(self).man),
    {
        let mut out: Vec<WmAction> = Vec::new();
        self.refresh(&mut out);
        proof {
            assert(out@ =~= refresh_tail_actions(self.man));
        }
        out
    }

    /// Spawn: emit the command, then refresh.
    fn kp_spawn(&mut self, cmd: String) -> (r: Vec<WmAction>)
        requires
            old(self).man.wf(),
        ensures
            Self::same_but_man(*old(self), *final(self)),
            Self::man_refreshed(old(self).man, final(self).man),
            r@ == seq![WmAction::Spawn(cmd)] + refresh_tail_actions(final(self).man),
    {
        let mut out: Vec<WmAction> = Vec::new();
        let ghost cmd0 = cmd;
        out.push(WmAction::Spawn(cmd));
        self.refresh(&mut out);
        proof {
            assert(out@ =~= seq![WmAction::Spawn(cmd0)] + refresh_tail_actions(self.man));
        }
        out
    }

    /// Close the focused client: ask it to delete itself, then refresh; a
    /// tag without focus stays as it is.
    fn kp_exit_focused(&mut self) -> (r: Vec<WmAction>)
        requires
            old(self).man.wf(),
        ensures
            Self::same_but_man(*old(self), *final(self)),
            match old(self).man.tags@[old(self).man.active_tag as int].focus {
                None => *final(self) == *old(self) && r@ == Seq::<WmAction>::empty(),
                Some(f) => Self::man_refreshed(old(self).man, final(self).man) && r@ == seq![
                    WmAction::KillFocus(f),
                ] + refresh_tail_actions(final(self).man),
            },
    {
        let mut out: Vec<WmAction> = Vec::new();
        let f = match self.man.get_focus() {
            Some(f) => f,
            None => {
                return out;
            },
        };
        out.push(WmAction::KillFocus(f));
        self.refresh(&mut out);
        proof {
            assert(out@ =~= seq![WmAction::KillFocus(f)] + refresh_tail_actions(self.man));
        }
        out
    }

    /// Switch to tag `t`, then refresh it.
    fn kp_switch(&mut self, t: usize) -> (r: Vec<WmAction>)
        requires
            old(self).man.wf(),
            t < TAG_COUNT,
        ensures
            Self::same_but_man(*old(self), *final(self)),
            Self::switch_post(*old(self), *final(self), r@, t as int),
    {
        let mut out: Vec<WmAction> = Vec::new();
        self.change_active_tag(t, &mut out);
        self.refresh(&mut out);
        proof {
            if t == old(self).man.active_tag {
                assert(out@ =~= refresh_tail_actions(self.man));
            } else {
                assert(out@ =~= unmap_actions(old(self).man.active_windows()) + map_actions(
                    old(self).man.tags@[t as int].windows@,
                ) + refresh_tail_actions(self.man));
            }
        }
        out
    }

    /// Move the focused window to tag `t`, then refresh the source tag.
    fn kp_move(&mut self, t: usize) -> (r: Vec<WmAction>)
        requires
            old(self).man.wf(),
            t < TAG_COUNT,
        ensures
            Self::same_but_man(*old(self), *final(self)),
            Self::move_post(*old(self), *final(self), r@, t as int),
    {
        let mut out: Vec<WmAction> = Vec::new();
        self.move_window(t, &mut out);
        self.refresh(&mut out);
        proof {
            let pre = *old(self);
            let ws = pre.man.active_windows();
            match pre.man.tags@[pre.man.active_tag as int].focus {
                Some(f) => {
                    if t != pre.man.active_tag {
                        if exists|k: int| 0 <= k < ws.len() && (#[trigger] ws[k]).window == f {
                            let k = choose|k: int|
                                0 <= k < ws.len() && (#[trigger] ws[k]).window == f;
                            assert(out@ =~= seq![WmAction::UnmapWindow(ws[k])]
                                + refresh_tail_actions(self.man));
                            assert forall|k2: int|
                                0 <= k2 < ws.len() && (#[trigger] ws[k2]).window == f implies out@
                                == seq![WmAction::UnmapWindow(ws[k2])] + refresh_tail_actions(
                                self.man,
                            ) by {
                                crate::state::lemma_client_index_unique(&pre.man, f, k2, k);
                            }
                        }
                    } else {
                        assert(out@ =~= refresh_tail_actions(self.man));
                    }
                },
                None => {
                    assert(out@ =~= refresh_tail_actions(self.man));
                },
            }
        }
        out
    }

    /// KeyPress: resolve the hotkey and execute its action; every
    /// state-changing action ends in a refresh.
    #[verifier::spinoff_prover]
    #[verifier::rlimit(100)]
    pub fn handle_keypress(&mut self, state: u16, detail: u8) -> (r: Vec<WmAction>)
        requires
            old(self).man.wf(),
        ensures
            Self::keypress_post(*old(self), *final(self), r@, state, detail),
    {
        let action = match self.key.get_action(state, detail) {
            Some(a) => a,
            None => {
                return Vec::new();
            },
        };
        match action {
            HotkeyAction::SwitchTag(n) => {
                if 1 <= n && n <= TAG_COUNT {
                    self.kp_switch(n - 1)
                } else {
                    self.kp_refresh_only()
                }
            },
            HotkeyAction::MoveWindow(n) => {
                if 1 <= n && n <= TAG_COUNT {
                    self.kp_move(n - 1)
                } else {
                    self.kp_refresh_only()
                }
            },
            HotkeyAction::Spawn(cmd) => self.kp_spawn(cmd),
            HotkeyAction::ExitFocusedWindow => self.kp_exit_focused(),
            HotkeyAction::ChangeRatio(d) => {
                self.man.change_ratio(d);
                self.kp_refresh_only()
            },
            HotkeyAction::NextFocus(d) => {
                self.man.switch_focus_next(d);
                self.kp_refresh_only()
            },
            HotkeyAction::NextTag(d) => {
                let t = Self::wrap_tag(self.man.active_tag, d);
                self.kp_switch(t)
            },
            HotkeyAction::SwapMaster => {
                self.man.swap_master();
                self.kp_refresh_only()
            },
        }
    }

    /// What a client message leaves behind: only a `_NET_WM_STATE` message
    /// whose first data atom is the fullscreen atom, aimed at a managed
    /// window of the active tag, changes anything. Action 1 makes the window
    /// fullscreen, 0 puts it back into the stack, 2 toggles.
    pub open spec fn client_message_post(
        pre: EventHandler,
        post: EventHandler,
        acts: Seq<WmAction>,
        window: u32,
        type_atom: u32,
        data0: u32,
        data1: u32,
    ) -> bool {
        let ws = pre.man.active_windows();
        let at = pre.man.active_tag as int;
        let ti = pre.man.tiling;
        let relevant = data1 != 0 && type_atom == pre.net_wm_state_atom && data1
            == pre.net_wm_fullscreen_atom && (data0 == 0 || data0 == 1 || data0 == 2) && (exists|
            k: int,
        |
            0 <= k < ws.len() && ((#[trigger] ws[k]).window == window || ws[k].frame_window
                == window));
        if relevant {
            forall|k: int|
                0 <= k < ws.len() && ((#[trigger] ws[k]).window == window || ws[k].frame_window
                    == window) ==> {
                    let make = data0 == 1 || (data0 == 2 && ws[k].group != WindowGroup::Floating);
                    &&& Self::same_but_man(pre, post)
                    &&& post.man.wf()
                    &&& same_except_tag(pre.man, post.man, at)
                    &&& post.man.tags@[at].tag == pre.man.tags@[at].tag
                    &&& post.man.tags@[at].focus == pre.man.tags@[at].focus
                    &&& (if make {
                        &&& post.man.active_windows() == spec_refresh(
                            ws.update(k, fullscreen_record(ws[k], ti)),
                            ti,
                        )
                        &&& acts == seq![WmAction::SetFullscreen(fullscreen_record(ws[k], ti))]
                            + refresh_tail_actions(post.man)
                    } else {
                        &&& post.man.active_windows() == spec_refresh(
                            ws.update(k, crate::state::with_group(ws[k], WindowGroup::Stack)),
                            ti,
                        )
                        &&& acts == seq![WmAction::RemoveFullscreenProp(ws[k].window)]
                            + refresh_tail_actions(post.man)
                    })
                }
        } else {
            &&& post == pre
            &&& acts == Seq::<WmAction>::empty()
        }
    }

    /// ClientMessage: the `_NET_WM_STATE` fullscreen protocol.
    pub fn handle_client_message(
        &mut self,
        window: u32,
        type_atom: u32,
        data0: u32,
        data1: u32,
    ) -> (r: Vec<WmAction>)
        requires
            old(self).man.wf(),
        ensures
            Self::client_message_post(
                *old(self),
                *final(self),
                r@,
                window,
                type_atom,
                data0,
                data1,
            ),
    {
        let mut out: Vec<WmAction> = Vec::new();
        if data1 == 0 {
            return out;
        }
        if type_atom != self.net_wm_state_atom || data1 != self.net_wm_fullscreen_atom {
            return out;
        }
        if data0 > 2 {
            return out;
        }
        let k = match self.man.get_index_of_window(window) {
            Some(k) => k,
            None => {
                return out;
            },
        };
        let ghost ws = old(self).man.active_windows();
        let rec = self.man.window_at(k);
        proof {
            assert forall|k2: int|
                0 <= k2 < ws.len() && ((#[trigger] ws[k2]).window == window || ws[k2].frame_window
                    == window) implies k2 == k as int by {
                if k2 != k {
                    assert(crate::state::ids_disjoint(ws[k2], ws[k as int]));
                }
            }
        }
        let make: bool = if data0 == 1 {
            true
        } else if data0 == 2 {
            !matches!(rec.group, WindowGroup::Floating)
        } else {
            false
        };
        if make {
            let fsr = WindowState {
                x: 0,
                y: 0,
                width: self.man.tiling.width,
                height: self.man.tiling.height,
                group: WindowGroup::Floating,
                ..rec
            };
            self.man.set_window_at(k, fsr);
            out.push(WmAction::SetFullscreen(fsr));
        } else {
            self.man.set_window_at(k, WindowState { group: WindowGroup::Stack, ..rec });
            out.push(WmAction::RemoveFullscreenProp(rec.window));
        }
        self.refresh(&mut out);
        proof {
            if make {
                assert(out@ =~= seq![
                    WmAction::SetFullscreen(fullscreen_record(ws[k as int], old(self).man.tiling)),
                ] + refresh_tail_actions(self.man));
            } else {
                assert(out@ =~= seq![WmAction::RemoveFullscreenProp(ws[k as int].window)]
                    + refresh_tail_actions(self.man));
            }
        }
        out
    }

    /// The router's one entry: dispatches an inbound event to its handler
    /// and hands back the display requests the caller owes, in order.
    pub fn handle_event(&mut self, event: WmEvent) -> (r: Vec<WmAction>)
        requires
            old(self).man.wf(),
        ensures
            final(self).man.wf(),
            match event {
                WmEvent::MapRequest { window, frame } => Self::map_request_post(
                    *old(self),
                    *final(self),
                    r@,
                    window,
                    frame,
                ),
                WmEvent::UnmapNotify { window } => Self::unmap_post(
                    *old(self),
                    *final(self),
                    r@,
                    window,
                ),
                WmEvent::KeyPress { state, detail } => Self::keypress_post(
                    *old(self),
                    *final(self),
                    r@,
                    state,
                    detail,
                ),
                WmEvent::EnterNotify { child, event } => Self::enter_post(
                    *old(self),
                    *final(self),
                    r@,
                    child,
                    event,
                ),
                WmEvent::ConfigureRequest {
                    window,
                    x,
                    y,
                    width,
                    height,
                    border_width,
                    sibling,
                    stack_mode,
                    value_mask,
                } => Self::config_post(
                    *old(self),
                    *final(self),
                    r@,
                    window,
                    x,
                    y,
                    width,
                    height,
                    border_width,
                    sibling,
                    stack_mode,
                    value_mask,
                ),
                WmEvent::ClientMessage { window, type_atom, data0, data1 } => Self::client_message_post(
                    *old(self),
                    *final(self),
                    r@,
                    window,
                    type_atom,
                    data0,
                    data1,
                ),
            },
    {
        match event {
            WmEvent::MapRequest { window, frame } => self.handle_map_request(window, frame),
            WmEvent::UnmapNotify { window } => self.handle_unmap_notify(window),
            WmEvent::KeyPress { state, detail } => self.handle_keypress(state, detail),
            WmEvent::EnterNotify { child, event } => self.handle_enter(child, event),
            WmEvent::ConfigureRequest {
                window,
                x,
                y,
                width,
                height,
                border_width,
                sibling,
                stack_mode,
                value_mask,
            } => self.handle_config(
                window,
                x,
                y,
                width,
                height,
                border_width,
                sibling,
                stack_mode,
                value_mask,
            ),
            WmEvent::ClientMessage { window, type_atom, data0, data1 } => self.handle_client_message(
                window,
                type_atom,
                data0,
                data1,
            ),
        }
    }
}

} // verus!

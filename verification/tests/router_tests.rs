use hematite_wm::events::EventHandler;
use hematite_wm::events::WmAction;
use hematite_wm::events::WmEvent;
use hematite_wm::keys::Hotkey;
use hematite_wm::keys::HotkeyAction;
use hematite_wm::keys::KeyHandler;
use hematite_wm::state::StateHandler;
use hematite_wm::state::TilingInfo;
use hematite_wm::state::WindowGroup;

const WM_STATE_ATOM: u32 = 999;
const FULLSCREEN_ATOM: u32 = 888;
const MOD4: u16 = 64;

fn tiling() -> TilingInfo {
    TilingInfo { gap: 10, ratio: 500, width: 1000, height: 600, bar_height: 20 }
}

fn hotkey(mask: u16, code: u32, action: HotkeyAction) -> Hotkey {
    Hotkey { _sym: 0, mask, action, code, modifier: mask }
}

fn router(hotkeys: Vec<Hotkey>) -> EventHandler {
    EventHandler {
        man: StateHandler::new(tiling()),
        key: KeyHandler { _sym_code: Vec::new(), hotkeys },
        net_wm_state_atom: WM_STATE_ATOM,
        net_wm_fullscreen_atom: FULLSCREEN_ATOM,
    }
}

fn map(r: &mut EventHandler, client: u32) -> Vec<WmAction> {
    r.handle_event(WmEvent::MapRequest { window: client, frame: client + 100 })
}

fn geometry(r: &EventHandler, i: usize) -> (i16, i16, u16, u16) {
    let w = &r.man.get_active_tag_windows()[i];
    (w.x, w.y, w.width, w.height)
}

#[test]
fn map_request_adopts_and_tiles_single() {
    let mut r = router(Vec::new());
    let acts = map(&mut r, 101);
    let ws = r.man.get_active_tag_windows();
    assert_eq!(ws.len(), 1);
    assert_eq!(ws[0].window, 101);
    assert_eq!(r.man.get_focus(), Some(101));
    assert_eq!(geometry(&r, 0), (10, 30, 980, 560));
    assert!(matches!(acts[0], WmAction::CreateFrame(w) if w.window == 101));
    assert!(matches!(acts[1], WmAction::Configure(w) if w.window == 101));
    assert!(matches!(acts[2], WmAction::SetFocus(w) if w.window == 101));
    assert_eq!(acts[3], WmAction::DrawBar);
    assert_eq!(acts.len(), 4);
}

#[test]
fn map_request_known_client_is_ignored() {
    let mut r = router(Vec::new());
    map(&mut r, 101);
    let acts = map(&mut r, 101);
    assert!(acts.is_empty());
    assert_eq!(r.man.get_active_tag_windows().len(), 1);
}

#[test]
fn two_maps_make_master_and_stack() {
    let mut r = router(Vec::new());
    map(&mut r, 101);
    map(&mut r, 102);
    let ws = r.man.get_active_tag_windows();
    assert_eq!(ws.len(), 2);
    assert_eq!(ws[0].window, 101);
    assert_eq!(ws[0].group, WindowGroup::Stack);
    assert_eq!(ws[1].window, 102);
    assert_eq!(ws[1].group, WindowGroup::Master);
    assert_eq!(geometry(&r, 1), (10, 30, 480, 560));
    assert_eq!(geometry(&r, 0), (500, 30, 490, 560));
    assert_eq!(r.man.get_focus(), Some(102));
}

#[test]
fn three_maps_follow_the_stack_formula() {
    let mut r = router(Vec::new());
    map(&mut r, 101);
    map(&mut r, 102);
    map(&mut r, 103);
    let ws = r.man.get_active_tag_windows();
    assert_eq!(
        ws.iter().map(|w| w.window).collect::<Vec<_>>(),
        vec![101, 102, 103],
    );
    assert_eq!(geometry(&r, 2), (10, 30, 480, 560));
    assert_eq!(geometry(&r, 0), (500, 30, 490, 260));
    assert_eq!(geometry(&r, 1), (500, 300, 490, 290));
}

#[test]
fn tag_switch_preserves_layout() {
    let mut r = router(vec![
        hotkey(MOD4, 11, HotkeyAction::SwitchTag(2)),
        hotkey(MOD4, 12, HotkeyAction::SwitchTag(1)),
    ]);
    map(&mut r, 101);
    map(&mut r, 102);
    map(&mut r, 103);
    let before: Vec<_> = r.man.get_active_tag_windows().clone();

    let acts = r.handle_event(WmEvent::KeyPress { state: MOD4, detail: 11 });
    assert_eq!(r.man.active_tag, 1);
    assert!(r.man.get_active_tag_windows().is_empty());
    let unmaps = acts
        .iter()
        .filter(|a| matches!(a, WmAction::UnmapWindow(_)))
        .count();
    assert_eq!(unmaps, 3);
    let maps = acts
        .iter()
        .filter(|a| matches!(a, WmAction::MapWindow(_)))
        .count();
    assert_eq!(maps, 0);

    let acts = r.handle_event(WmEvent::KeyPress { state: MOD4, detail: 12 });
    assert_eq!(r.man.active_tag, 0);
    assert_eq!(r.man.get_active_tag_windows(), &before);
    let maps = acts
        .iter()
        .filter(|a| matches!(a, WmAction::MapWindow(_)))
        .count();
    assert_eq!(maps, 3);
}

#[test]
fn close_focused_then_unmap_returns_to_single() {
    let mut r = router(vec![hotkey(MOD4, 20, HotkeyAction::ExitFocusedWindow)]);
    map(&mut r, 101);
    map(&mut r, 102);
    assert_eq!(r.man.get_focus(), Some(102));
    let acts = r.handle_event(WmEvent::KeyPress { state: MOD4, detail: 20 });
    assert_eq!(acts[0], WmAction::KillFocus(102));
    // The client obliges and unmaps itself.
    let acts = r.handle_event(WmEvent::UnmapNotify { window: 102 });
    assert!(matches!(acts[0], WmAction::DestroyFrame(w) if w.window == 102));
    let ws = r.man.get_active_tag_windows();
    assert_eq!(ws.len(), 1);
    assert_eq!(ws[0].window, 101);
    assert_eq!(r.man.get_focus(), Some(101));
    assert_eq!(geometry(&r, 0), (10, 30, 980, 560));
}

#[test]
fn unmap_of_unknown_window_is_ignored() {
    let mut r = router(Vec::new());
    map(&mut r, 101);
    let acts = r.handle_event(WmEvent::UnmapNotify { window: 555 });
    assert!(acts.is_empty());
    assert_eq!(r.man.get_active_tag_windows().len(), 1);
}

#[test]
fn fullscreen_toggle_round_trip() {
    let mut r = router(Vec::new());
    map(&mut r, 101);
    let acts = r.handle_event(WmEvent::ClientMessage {
        window: 101,
        type_atom: WM_STATE_ATOM,
        data0: 1,
        data1: FULLSCREEN_ATOM,
    });
    {
        let ws = r.man.get_active_tag_windows();
        assert_eq!(ws[0].group, WindowGroup::Floating);
        assert_eq!(geometry(&r, 0), (0, 0, 1000, 600));
        assert!(matches!(acts[0], WmAction::SetFullscreen(w) if w.window == 101));
    }
    let acts = r.handle_event(WmEvent::ClientMessage {
        window: 101,
        type_atom: WM_STATE_ATOM,
        data0: 0,
        data1: FULLSCREEN_ATOM,
    });
    let ws = r.man.get_active_tag_windows();
    assert_eq!(ws[0].group, WindowGroup::Master);
    assert_eq!(geometry(&r, 0), (10, 30, 980, 560));
    assert_eq!(acts[0], WmAction::RemoveFullscreenProp(101));
}

#[test]
fn fullscreen_toggle_action_flips() {
    let mut r = router(Vec::new());
    map(&mut r, 101);
    r.handle_event(WmEvent::ClientMessage {
        window: 101,
        type_atom: WM_STATE_ATOM,
        data0: 2,
        data1: FULLSCREEN_ATOM,
    });
    assert_eq!(r.man.get_active_tag_windows()[0].group, WindowGroup::Floating);
    r.handle_event(WmEvent::ClientMessage {
        window: 101,
        type_atom: WM_STATE_ATOM,
        data0: 2,
        data1: FULLSCREEN_ATOM,
    });
    assert_eq!(r.man.get_active_tag_windows()[0].group, WindowGroup::Master);
}

#[test]
fn client_message_with_foreign_atom_is_ignored() {
    let mut r = router(Vec::new());
    map(&mut r, 101);
    let acts = r.handle_event(WmEvent::ClientMessage {
        window: 101,
        type_atom: 12345,
        data0: 1,
        data1: FULLSCREEN_ATOM,
    });
    assert!(acts.is_empty());
    let acts = r.handle_event(WmEvent::ClientMessage {
        window: 101,
        type_atom: WM_STATE_ATOM,
        data0: 1,
        data1: 0,
    });
    assert!(acts.is_empty());
}

#[test]
fn nine_next_tag_steps_return_home() {
    let mut r = router(vec![hotkey(MOD4, 30, HotkeyAction::NextTag(1))]);
    map(&mut r, 101);
    for _ in 0..9 {
        r.handle_event(WmEvent::KeyPress { state: MOD4, detail: 30 });
    }
    assert_eq!(r.man.active_tag, 0);
    assert_eq!(r.man.get_active_tag_windows().len(), 1);
}

#[test]
fn next_tag_wraps_backward() {
    let mut r = router(vec![hotkey(MOD4, 31, HotkeyAction::NextTag(-1))]);
    r.handle_event(WmEvent::KeyPress { state: MOD4, detail: 31 });
    assert_eq!(r.man.active_tag, 8);
}

#[test]
fn move_window_carries_record_to_target_tag() {
    let mut r = router(vec![
        hotkey(MOD4, 40, HotkeyAction::MoveWindow(3)),
        hotkey(MOD4, 41, HotkeyAction::SwitchTag(3)),
    ]);
    map(&mut r, 101);
    map(&mut r, 102);
    let acts = r.handle_event(WmEvent::KeyPress { state: MOD4, detail: 40 });
    assert!(matches!(acts[0], WmAction::UnmapWindow(w) if w.window == 102));
    assert_eq!(r.man.get_active_tag_windows().len(), 1);
    assert_eq!(r.man.get_focus(), Some(101));
    assert_eq!(r.man.tags[2].windows.len(), 1);
    assert_eq!(r.man.tags[2].windows[0].window, 102);
    r.handle_event(WmEvent::KeyPress { state: MOD4, detail: 41 });
    assert_eq!(r.man.active_tag, 2);
    assert_eq!(geometry(&r, 0), (10, 30, 980, 560));
}

#[test]
fn enter_notify_moves_focus() {
    let mut r = router(Vec::new());
    map(&mut r, 101);
    map(&mut r, 102);
    assert_eq!(r.man.get_focus(), Some(102));
    // The pointer enters 101's frame window.
    r.handle_event(WmEvent::EnterNotify { child: 201, event: 0 });
    assert_eq!(r.man.get_focus(), Some(101));
    // An enter event naming no managed window leaves the focus alone.
    r.handle_event(WmEvent::EnterNotify { child: 777, event: 778 });
    assert_eq!(r.man.get_focus(), Some(101));
}

#[test]
fn configure_request_strips_stacking_for_managed() {
    let mut r = router(Vec::new());
    map(&mut r, 101);
    let acts = r.handle_event(WmEvent::ConfigureRequest {
        window: 101,
        x: 1,
        y: 2,
        width: 300,
        height: 400,
        border_width: 5,
        sibling: 7,
        stack_mode: 1,
        value_mask: 0x7f,
    });
    assert_eq!(acts.len(), 1);
    match &acts[0] {
        WmAction::ConfigureForward { window, value_mask, .. } => {
            assert_eq!(*window, 101);
            assert_eq!(*value_mask, 0x1f);
        }
        other => panic!("unexpected action {:?}", other),
    }
    let acts = r.handle_event(WmEvent::ConfigureRequest {
        window: 555,
        x: 1,
        y: 2,
        width: 300,
        height: 400,
        border_width: 5,
        sibling: 7,
        stack_mode: 1,
        value_mask: 0x7f,
    });
    match &acts[0] {
        WmAction::ConfigureForward { window, value_mask, .. } => {
            assert_eq!(*window, 555);
            assert_eq!(*value_mask, 0x7f);
        }
        other => panic!("unexpected action {:?}", other),
    }
}

#[test]
fn swap_master_hotkey_promotes_focused() {
    let mut r = router(vec![
        hotkey(MOD4, 50, HotkeyAction::SwapMaster),
        hotkey(MOD4, 51, HotkeyAction::NextFocus(1)),
    ]);
    map(&mut r, 101);
    map(&mut r, 102);
    map(&mut r, 103);
    // Focus 101 (one step forward from the master 103 wraps to index 0).
    r.handle_event(WmEvent::KeyPress { state: MOD4, detail: 51 });
    assert_eq!(r.man.get_focus(), Some(101));
    r.handle_event(WmEvent::KeyPress { state: MOD4, detail: 50 });
    let ws = r.man.get_active_tag_windows();
    assert_eq!(ws[2].window, 101);
    assert_eq!(ws[2].group, WindowGroup::Master);
    assert_eq!(ws[0].window, 103);
}

#[test]
fn spawn_hotkey_emits_command() {
    let mut r = router(vec![hotkey(MOD4, 60, HotkeyAction::Spawn("xterm".to_string()))]);
    let acts = r.handle_event(WmEvent::KeyPress { state: MOD4, detail: 60 });
    assert_eq!(acts[0], WmAction::Spawn("xterm".to_string()));
}

#[test]
fn unresolved_keypress_does_nothing() {
    let mut r = router(vec![hotkey(MOD4, 60, HotkeyAction::SwapMaster)]);
    let acts = r.handle_event(WmEvent::KeyPress { state: MOD4, detail: 61 });
    assert!(acts.is_empty());
    let acts = r.handle_event(WmEvent::KeyPress { state: 1, detail: 60 });
    assert!(acts.is_empty());
}

#[test]
fn ratio_hotkey_clamps_at_the_band() {
    let mut r = router(vec![hotkey(MOD4, 70, HotkeyAction::ChangeRatio(1000))]);
    map(&mut r, 101);
    for _ in 0..3 {
        r.handle_event(WmEvent::KeyPress { state: MOD4, detail: 70 });
        assert!(r.man.tiling.ratio <= 850);
    }
    assert_eq!(r.man.tiling.ratio, 850);
}

#[test]
fn tag_switch_round_trip_keeps_lists() {
    let mut r = router(vec![
        hotkey(MOD4, 80, HotkeyAction::SwitchTag(4)),
        hotkey(MOD4, 81, HotkeyAction::SwitchTag(7)),
        hotkey(MOD4, 82, HotkeyAction::SwitchTag(1)),
    ]);
    map(&mut r, 101);
    map(&mut r, 102);
    let before: Vec<Vec<u32>> = r
        .man
        .tags
        .iter()
        .map(|t| t.windows.iter().map(|w| w.window).collect())
        .collect();
    r.handle_event(WmEvent::KeyPress { state: MOD4, detail: 80 });
    r.handle_event(WmEvent::KeyPress { state: MOD4, detail: 81 });
    r.handle_event(WmEvent::KeyPress { state: MOD4, detail: 82 });
    let after: Vec<Vec<u32>> = r
        .man
        .tags
        .iter()
        .map(|t| t.windows.iter().map(|w| w.window).collect())
        .collect();
    assert_eq!(before, after);
    assert_eq!(r.man.active_tag, 0);
}

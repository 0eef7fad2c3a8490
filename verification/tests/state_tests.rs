use hematite_wm::state::StateHandler;
use hematite_wm::state::Tag;
use hematite_wm::state::TilingInfo;
use hematite_wm::state::WindowGroup;
use hematite_wm::state::WindowState;

fn tiling() -> TilingInfo {
    TilingInfo { gap: 10, ratio: 500, width: 1000, height: 600, bar_height: 20 }
}

fn window(id: u32) -> WindowState {
    WindowState::new(id, id + 100)
}

#[test]
fn window_state_new_defaults() {
    let w = WindowState::new(101, 201);
    assert_eq!(w.window, 101);
    assert_eq!(w.frame_window, 201);
    assert_eq!(w.x, 0);
    assert_eq!(w.y, 0);
    assert_eq!(w.width, 100);
    assert_eq!(w.height, 100);
    assert_eq!(w.group, WindowGroup::Stack);
}

#[test]
fn window_state_print_mentions_ids() {
    let w = WindowState::new(101, 201);
    let line = w.print();
    assert!(line.contains("101"));
    assert!(line.contains("201"));
}

#[test]
fn tag_new_is_empty() {
    let t = Tag::new(4);
    assert_eq!(t.tag, 4);
    assert!(t.focus.is_none());
    assert!(t.windows.is_empty());
}

#[test]
fn state_new_has_nine_empty_tags() {
    let s = StateHandler::new(tiling());
    assert_eq!(s.active_tag, 0);
    assert_eq!(s.tags.len(), 9);
    for (i, t) in s.tags.iter().enumerate() {
        assert_eq!(t.tag, i);
        assert!(t.focus.is_none());
        assert!(t.windows.is_empty());
    }
}

#[test]
fn add_window_appends_and_focuses() {
    let mut s = StateHandler::new(tiling());
    s.add_window(window(101));
    s.add_window(window(102));
    let ws = s.get_active_tag_windows();
    assert_eq!(ws.len(), 2);
    assert_eq!(ws[0].window, 101);
    assert_eq!(ws[1].window, 102);
    assert_eq!(s.get_focus(), Some(102));
}

#[test]
fn get_window_state_matches_client_or_frame() {
    let mut s = StateHandler::new(tiling());
    s.add_window(window(101));
    assert_eq!(s.get_window_state(101).unwrap().window, 101);
    assert_eq!(s.get_window_state(201).unwrap().window, 101);
    assert!(s.get_window_state(999).is_none());
}

#[test]
fn remove_window_refocuses_master() {
    let mut s = StateHandler::new(tiling());
    s.add_window(window(101));
    s.add_window(window(102));
    s.add_window(window(103));
    // 102 sits in the middle; after its removal the master (still 103) is
    // focused.
    s.remove_window_at(1);
    let ws = s.get_active_tag_windows();
    assert_eq!(ws.len(), 2);
    assert_eq!(ws[0].window, 101);
    assert_eq!(ws[1].window, 103);
    assert_eq!(s.get_focus(), Some(103));
}

#[test]
fn swap_master_exchanges_focus_and_tail() {
    let mut s = StateHandler::new(tiling());
    s.add_window(window(101));
    s.add_window(window(102));
    s.add_window(window(103));
    s.focus_window_at(0);
    s.swap_master();
    let ws = s.get_active_tag_windows();
    assert_eq!(ws[0].window, 103);
    assert_eq!(ws[2].window, 101);
    assert_eq!(s.get_focus(), Some(101));
}

#[test]
fn swap_master_on_master_uses_penultimate() {
    let mut s = StateHandler::new(tiling());
    s.add_window(window(101));
    s.add_window(window(102));
    s.add_window(window(103));
    // Focus is the master 103; it changes place with 102.
    s.swap_master();
    let ws = s.get_active_tag_windows();
    assert_eq!(ws[0].window, 101);
    assert_eq!(ws[1].window, 103);
    assert_eq!(ws[2].window, 102);
}

#[test]
fn switch_focus_next_wraps_both_ways() {
    let mut s = StateHandler::new(tiling());
    s.add_window(window(101));
    s.add_window(window(102));
    s.add_window(window(103));
    assert_eq!(s.get_focus(), Some(103));
    s.switch_focus_next(1);
    assert_eq!(s.get_focus(), Some(101));
    s.switch_focus_next(-1);
    assert_eq!(s.get_focus(), Some(103));
    s.switch_focus_next(-1);
    assert_eq!(s.get_focus(), Some(102));
    s.switch_focus_next(4);
    assert_eq!(s.get_focus(), Some(103));
}

#[test]
fn ratio_clamp_never_leaves_band() {
    let mut s = StateHandler::new(tiling());
    for _ in 0..5 {
        s.change_ratio(1000);
        assert!(s.tiling.ratio <= 850);
    }
    assert_eq!(s.tiling.ratio, 850);
    for _ in 0..5 {
        s.change_ratio(-1000);
        assert!(s.tiling.ratio >= 150);
    }
    assert_eq!(s.tiling.ratio, 150);
    s.change_ratio(50);
    assert_eq!(s.tiling.ratio, 200);
}

#[test]
fn classification_marks_tail_master() {
    let mut s = StateHandler::new(tiling());
    s.add_window(window(101));
    s.add_window(window(102));
    s.add_window(window(103));
    s.set_last_master_others_stack();
    let ws = s.get_active_tag_windows();
    assert_eq!(ws[0].group, WindowGroup::Stack);
    assert_eq!(ws[1].group, WindowGroup::Stack);
    assert_eq!(ws[2].group, WindowGroup::Master);
}

#[test]
fn classification_skips_floating_tail() {
    let mut s = StateHandler::new(tiling());
    s.add_window(window(101));
    s.add_window(window(102));
    let w = s.window_at(1);
    let mut fl = w;
    fl.group = WindowGroup::Floating;
    s.set_window_at(1, fl);
    s.set_last_master_others_stack();
    let ws = s.get_active_tag_windows();
    assert_eq!(ws[0].group, WindowGroup::Stack);
    assert_eq!(ws[1].group, WindowGroup::Floating);
}

#[test]
fn membership_stays_unique_across_tags() {
    let mut s = StateHandler::new(tiling());
    s.add_window(window(101));
    s.add_window(window(102));
    // Move 102 to tag 5 by hand: remove, then push.
    let w = s.window_at(1);
    s.remove_window_at(1);
    s.push_to_tag(5, w);
    let mut seen = std::collections::HashSet::new();
    for t in s.tags.iter() {
        for w in t.windows.iter() {
            assert!(seen.insert(w.window));
        }
    }
    assert_eq!(s.tags[0].windows.len(), 1);
    assert_eq!(s.tags[5].windows.len(), 1);
    assert_eq!(s.tags[5].windows[0].window, 102);
}

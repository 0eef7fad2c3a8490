use hematite_wm::state::StateHandler;
use hematite_wm::state::TilingInfo;
use hematite_wm::state::WindowGroup;
use hematite_wm::state::WindowState;

fn tiling() -> TilingInfo {
    TilingInfo { gap: 10, ratio: 500, width: 1000, height: 600, bar_height: 20 }
}

fn geometry(w: &WindowState) -> (i16, i16, u16, u16) {
    (w.x, w.y, w.width, w.height)
}

#[test]
fn single_window_fills_workarea() {
    let mut s = StateHandler::new(tiling());
    s.add_window(WindowState::new(101, 201));
    s.refresh();
    let ws = s.get_active_tag_windows();
    assert_eq!(ws.len(), 1);
    assert_eq!(ws[0].group, WindowGroup::Master);
    assert_eq!(geometry(&ws[0]), (10, 30, 980, 560));
    assert_eq!(s.get_focus(), Some(101));
}

#[test]
fn two_windows_master_and_stack() {
    let mut s = StateHandler::new(tiling());
    s.add_window(WindowState::new(101, 201));
    s.add_window(WindowState::new(102, 202));
    s.refresh();
    let ws = s.get_active_tag_windows();
    assert_eq!(ws.len(), 2);
    assert_eq!(ws[0].window, 101);
    assert_eq!(ws[0].group, WindowGroup::Stack);
    assert_eq!(ws[1].window, 102);
    assert_eq!(ws[1].group, WindowGroup::Master);
    assert_eq!(geometry(&ws[1]), (10, 30, 480, 560));
    assert_eq!(geometry(&ws[0]), (500, 30, 490, 560));
}

#[test]
fn three_windows_split_the_stack_column() {
    let mut s = StateHandler::new(tiling());
    s.add_window(WindowState::new(101, 201));
    s.add_window(WindowState::new(102, 202));
    s.add_window(WindowState::new(103, 203));
    s.refresh();
    let ws = s.get_active_tag_windows();
    assert_eq!(ws.len(), 3);
    assert_eq!(ws[0].window, 101);
    assert_eq!(ws[1].window, 102);
    assert_eq!(ws[2].window, 103);
    assert_eq!(ws[2].group, WindowGroup::Master);
    assert_eq!(geometry(&ws[2]), (10, 30, 480, 560));
    assert_eq!(geometry(&ws[0]), (500, 30, 490, 260));
    assert_eq!(geometry(&ws[1]), (500, 300, 490, 290));
}

#[test]
fn three_windows_rects_disjoint_and_inside() {
    let mut s = StateHandler::new(tiling());
    s.add_window(WindowState::new(101, 201));
    s.add_window(WindowState::new(102, 202));
    s.add_window(WindowState::new(103, 203));
    s.refresh();
    let ws = s.get_active_tag_windows();
    for w in ws.iter() {
        assert!(w.x >= 10);
        assert!(w.x as i32 + w.width as i32 <= 990);
        assert!(w.y >= 30);
        assert!(w.y as i32 + w.height as i32 <= 590);
    }
    for i in 0..3 {
        for j in (i + 1)..3 {
            let a = &ws[i];
            let b = &ws[j];
            let x_apart = a.x as i32 + a.width as i32 <= b.x as i32
                || b.x as i32 + b.width as i32 <= a.x as i32;
            let y_apart = a.y as i32 + a.height as i32 <= b.y as i32
                || b.y as i32 + b.height as i32 <= a.y as i32;
            assert!(x_apart || y_apart);
        }
    }
}

#[test]
fn tiler_is_deterministic() {
    let mut s1 = StateHandler::new(tiling());
    let mut s2 = StateHandler::new(tiling());
    for id in [101u32, 102, 103, 104] {
        s1.add_window(WindowState::new(id, id + 100));
        s2.add_window(WindowState::new(id, id + 100));
    }
    s1.refresh();
    s2.refresh();
    assert_eq!(s1.get_active_tag_windows(), s2.get_active_tag_windows());
    // Refreshing again changes nothing: the tiler is a pure function of the
    // list and the parameters.
    let before = s1.get_active_tag_windows().clone();
    s1.refresh();
    assert_eq!(&before, s1.get_active_tag_windows());
}

#[test]
fn floating_window_keeps_its_geometry() {
    let mut s = StateHandler::new(tiling());
    s.add_window(WindowState::new(101, 201));
    s.add_window(WindowState::new(102, 202));
    let mut fl = s.window_at(0);
    fl.group = WindowGroup::Floating;
    fl.x = 7;
    fl.y = 8;
    fl.width = 33;
    fl.height = 44;
    s.set_window_at(0, fl);
    s.refresh();
    let ws = s.get_active_tag_windows();
    assert_eq!(geometry(&ws[0]), (7, 8, 33, 44));
    assert_eq!(ws[0].group, WindowGroup::Floating);
    // The master still fills the single-window area: the floating window is
    // not counted as a stack member.
    assert_eq!(geometry(&ws[1]), (10, 30, 980, 560));
}

#[test]
fn ratio_changes_the_split_point() {
    let mut s = StateHandler::new(tiling());
    s.add_window(WindowState::new(101, 201));
    s.add_window(WindowState::new(102, 202));
    s.change_ratio(200);  // ratio 700: stack column takes 700 thousandths
    s.refresh();
    let ws = s.get_active_tag_windows();
    assert_eq!(geometry(&ws[1]), (10, 30, 280, 560));
    assert_eq!(geometry(&ws[0]), (300, 30, 690, 560));
}

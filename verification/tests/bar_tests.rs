use hematite_wm::bar::bar_height;
use hematite_wm::bar::bar_layout;
use hematite_wm::bar::choose_window_title;
use hematite_wm::bar::create_tag_rectangle;
use hematite_wm::bar::status_text_origin;
use hematite_wm::bar::Rect;
use hematite_wm::state::StateHandler;
use hematite_wm::state::TilingInfo;
use hematite_wm::state::WindowState;

fn tiling() -> TilingInfo {
    TilingInfo { gap: 10, ratio: 500, width: 1000, height: 600, bar_height: 30 }
}

#[test]
fn bar_height_is_one_and_a_half_ascents_rounded_up() {
    assert_eq!(bar_height(20), 30);
    assert_eq!(bar_height(13), 20);
    assert_eq!(bar_height(21), 32);
    assert_eq!(bar_height(0), 0);
}

#[test]
fn window_title_prefers_the_utf8_name() {
    let title = |a: &str, b: &str| choose_window_title(a.to_string(), b.to_string());
    assert_eq!(title("modern", "legacy"), "modern");
    assert_eq!(title("", "legacy"), "legacy");
    assert_eq!(title("", ""), "");
}

#[test]
fn tag_cells_line_up() {
    assert_eq!(
        create_tag_rectangle(30, 1),
        Rect { x: 0, y: 0, width: 30, height: 30 },
    );
    assert_eq!(
        create_tag_rectangle(30, 4),
        Rect { x: 90, y: 0, width: 30, height: 30 },
    );
    assert_eq!(
        create_tag_rectangle(30, 9),
        Rect { x: 240, y: 0, width: 30, height: 30 },
    );
}

#[test]
fn layout_of_an_empty_store() {
    let s = StateHandler::new(tiling());
    let l = bar_layout(&s, 30, 20, 6);
    assert_eq!(l.inactive_cells.len(), 8);
    assert_eq!(l.inactive_cells[0].x, 30);
    assert_eq!(l.inactive_cells[7].x, 240);
    assert!(l.occupied_marks.is_empty());
    assert_eq!(l.active_cell, Rect { x: 0, y: 0, width: 30, height: 30 });
    assert!(l.active_mark.is_none());
    assert_eq!(l.digit_x.len(), 9);
    assert_eq!(l.digit_x[0], 12);
    assert_eq!(l.digit_x[8], 252);
    assert_eq!(l.text_y, 23);
    assert_eq!(l.title_x, 285);
}

#[test]
fn layout_marks_occupied_tags() {
    let mut s = StateHandler::new(tiling());
    s.add_window(WindowState::new(101, 201));
    let w = s.window_at(0);
    s.remove_window_at(0);
    s.push_to_tag(3, w);
    s.add_window(WindowState::new(102, 202));
    let l = bar_layout(&s, 30, 20, 6);
    // Tag 3 (cell number 4) holds a window and is inactive: one mark at its
    // cell, offset by a ninth of the bar height.
    assert_eq!(l.occupied_marks.len(), 1);
    assert_eq!(
        l.occupied_marks[0],
        Rect { x: 93, y: 3, width: 4, height: 4 },
    );
    // The active tag holds a window too: its mark is separate.
    assert_eq!(l.active_mark, Some(Rect { x: 3, y: 3, width: 4, height: 4 }));
}

#[test]
fn status_text_is_right_justified() {
    let (clear_x, text_x, text_y) = status_text_origin(1000, 30, 4, 6, 20);
    assert_eq!(clear_x, 946);
    assert_eq!(text_x, 976);
    assert_eq!(text_y, 21);
}

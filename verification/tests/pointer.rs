use dockman::dock::{get_hover_menu_bounds, normalize_app_id, DockAction, DockState, HoverState, MenuState, PointerEvent};
use dockman::windows::{WindowDiagnostics, WindowEntry};

fn window(id: u32, app: &str, active: bool) -> WindowEntry {
    let mut info = WindowDiagnostics::new();
    info.app_id = app.to_string();
    info.app_name = app.to_string();
    info.title = format!("{} window", app);
    info.is_activated = active;
    WindowEntry { id, info }
}

fn dock(width: u32, height: u32, pinned: &[&str], windows: Vec<WindowEntry>) -> DockState {
    DockState {
        width,
        height,
        pointer_x: 0,
        pointer_y: 0,
        open_windows: windows,
        pinned_apps: pinned.iter().map(|s| s.to_string()).collect(),
        menu_state: MenuState { x: 0, y: 0, target_window: None, target_app_id: None, is_open: false },
        hover_state: HoverState { x: 0, app_id: None, is_visible: false, last_leave_time: None },
        needs_redraw: false,
        last_interact_time: 0,
    }
}

fn chars(s: &str) -> Vec<char> {
    s.chars().collect()
}

#[test]
fn hover_menu_bounds_clamp_to_the_surface() {
    assert_eq!(get_hover_menu_bounds(100, 200, 60, 1), (0, 0, 200, 30));
    assert_eq!(get_hover_menu_bounds(500, 1000, 200, 2), (400, 70, 200, 60));
    assert_eq!(get_hover_menu_bounds(950, 1000, 200, 3), (800, 40, 200, 90));
}

#[test]
fn normalize_strips_numeric_suffix_and_maps_transmission() {
    assert_eq!(normalize_app_id(&chars("firefox")), chars("firefox"));
    assert_eq!(normalize_app_id(&chars("steam_1234")), chars("steam"));
    assert_eq!(normalize_app_id(&chars("my_app")), chars("my_app"));
    assert_eq!(normalize_app_id(&chars("Transmission-Qt")), chars("transmission-gtk"));
}

#[test]
fn empty_frame_changes_nothing() {
    let mut s = dock(200, 60, &["firefox"], vec![]);
    s.pointer_x = 100;
    s.pointer_y = 30;
    let actions = s.pointer_frame(&vec![], 5);
    assert!(actions.is_empty());
    assert_eq!(s.pointer_x, 100);
    assert_eq!(s.last_interact_time, 0);
    assert!(!s.hover_state.is_visible);
}

#[test]
fn motion_over_an_icon_shows_the_popup_and_only_repaints() {
    let mut s = dock(200, 60, &["firefox"], vec![]);
    let actions = s.pointer_frame(&vec![PointerEvent::Enter { x: 100, y: 30 }, PointerEvent::Motion { x: 101, y: 31 }], 7);
    assert_eq!(actions.len(), 2);
    assert!(matches!(actions[0], DockAction::Draw));
    assert!(matches!(actions[1], DockAction::Flush));
    assert!(s.hover_state.is_visible);
    assert_eq!(s.hover_state.app_id.as_deref(), Some("firefox"));
    // slot 0 starts at 64 + 12 = 76, so its centre is 100
    assert_eq!(s.hover_state.x, 100);
    assert_eq!(s.pointer_x, 101);
    assert_eq!(s.last_interact_time, 7);
}

#[test]
fn motion_off_the_icons_asks_for_nothing() {
    let mut s = dock(200, 60, &["firefox"], vec![]);
    let actions = s.pointer_frame(&vec![PointerEvent::Motion { x: 10, y: 30 }], 7);
    assert!(actions.is_empty());
    assert!(!s.hover_state.is_visible);
}

#[test]
fn leaving_closes_the_menu() {
    let mut s = dock(200, 60, &["firefox"], vec![]);
    s.pointer_x = 10;
    s.pointer_y = 30;
    s.menu_state.is_open = true;
    s.menu_state.target_app_id = Some("firefox".to_string());
    let actions = s.pointer_frame(&vec![PointerEvent::Leave], 9);
    assert!(!s.menu_state.is_open);
    assert!(!s.hover_state.is_visible);
    assert_eq!(actions.len(), 2);
    assert!(matches!(actions[0], DockAction::Draw));
}

#[test]
fn leaving_over_an_icon_closes_the_popup() {
    let mut s = dock(200, 60, &["firefox"], vec![]);
    s.pointer_frame(&vec![PointerEvent::Enter { x: 100, y: 30 }], 7);
    assert!(s.hover_state.is_visible);
    let actions = s.pointer_frame(&vec![PointerEvent::Leave], 8);
    assert!(!s.hover_state.is_visible);
    assert_eq!(s.hover_state.app_id, None);
    assert!(!s.menu_state.is_open);
    assert_eq!(actions.len(), 2);
    let actions = s.pointer_frame(&vec![PointerEvent::Leave, PointerEvent::Other], 9);
    assert!(!s.hover_state.is_visible);
    assert!(actions.is_empty());
}

#[test]
fn right_click_opens_the_menu_for_the_icon() {
    let mut s = dock(200, 60, &["firefox"], vec![]);
    s.pointer_x = 100;
    s.pointer_y = 30;
    let _ = s.pointer_frame(&vec![PointerEvent::Press { button: 273 }], 1);
    assert!(s.menu_state.is_open);
    assert_eq!(s.menu_state.target_app_id.as_deref(), Some("firefox"));
    assert_eq!(s.menu_state.target_window, None);
    assert_eq!((s.menu_state.x, s.menu_state.y), (100, 30));
}

#[test]
fn right_click_targets_the_active_window() {
    let mut s = dock(200, 60, &[], vec![window(3, "foot", false), window(7, "foot", true)]);
    s.pointer_x = 100;
    s.pointer_y = 45;
    let _ = s.pointer_frame(&vec![PointerEvent::Press { button: 273 }], 1);
    assert!(s.menu_state.is_open);
    assert_eq!(s.menu_state.target_window, Some(7));
}

#[test]
fn left_click_on_an_idle_pin_launches_it() {
    let mut s = dock(200, 60, &["firefox_12"], vec![]);
    s.pointer_x = 100;
    s.pointer_y = 30;
    let actions = s.pointer_frame(&vec![PointerEvent::Press { button: 272 }], 1);
    assert!(matches!(&actions[0], DockAction::Launch(a) if a == "firefox"));
}

#[test]
fn left_click_on_the_active_window_minimizes_it() {
    let mut s = dock(200, 60, &[], vec![window(7, "foot", true)]);
    s.pointer_x = 100;
    s.pointer_y = 45;
    let actions = s.pointer_frame(&vec![PointerEvent::Press { button: 272 }], 1);
    assert_eq!(actions.len(), 3);
    assert!(matches!(actions[0], DockAction::Minimize(7)));
    assert!(matches!(actions[1], DockAction::Draw));
    assert!(matches!(actions[2], DockAction::Flush));
}

#[test]
fn left_click_on_an_inactive_window_activates_it() {
    let mut s = dock(200, 60, &[], vec![window(9, "foot", false)]);
    s.pointer_x = 100;
    s.pointer_y = 45;
    let actions = s.pointer_frame(&vec![PointerEvent::Press { button: 272 }], 1);
    assert!(matches!(actions[0], DockAction::Activate(9)));
}

#[test]
fn menu_rows_run_their_commands() {
    // menu opened at (100, 200) on a 300 x 200 surface: it spans x 100..220, y 50..200
    let mut s = dock(300, 200, &[], vec![window(4, "foot", false)]);
    s.menu_state = MenuState { x: 100, y: 200, target_window: Some(4), target_app_id: Some("foot_3".to_string()), is_open: true };
    s.pointer_x = 150;
    s.pointer_y = 50 + 3 * 30 + 5;
    let actions = s.pointer_frame(&vec![PointerEvent::Press { button: 272 }], 1);
    assert!(matches!(actions[0], DockAction::Close(4)));
    assert!(matches!(actions[1], DockAction::Draw));
    assert!(!s.menu_state.is_open);

    s.menu_state.is_open = true;
    s.pointer_y = 50 + 4 * 30 + 5;
    let actions = s.pointer_frame(&vec![PointerEvent::Press { button: 272 }], 2);
    assert!(matches!(&actions[0], DockAction::TogglePin(a) if a == "foot"));

    s.menu_state.is_open = true;
    s.pointer_y = 50 + 30 + 5;
    let actions = s.pointer_frame(&vec![PointerEvent::Press { button: 272 }], 3);
    assert!(matches!(&actions[0], DockAction::Launch(a) if a == "foot_3"));
}

#[test]
fn straying_from_the_menu_closes_it() {
    let mut s = dock(300, 200, &[], vec![]);
    s.menu_state = MenuState { x: 100, y: 200, target_window: None, target_app_id: Some("foot".to_string()), is_open: true };
    let actions = s.pointer_frame(&vec![PointerEvent::Motion { x: 10, y: 10 }], 1);
    assert!(!s.menu_state.is_open);
    assert_eq!(actions.len(), 2);
}

#[test]
fn popup_lingers_for_a_second_after_leaving() {
    let mut s = dock(200, 60, &["firefox"], vec![]);
    let _ = s.pointer_frame(&vec![PointerEvent::Motion { x: 100, y: 30 }], 1_000);
    assert!(s.hover_state.is_visible);
    let _ = s.pointer_frame(&vec![PointerEvent::Motion { x: 5, y: 30 }], 1_500);
    assert!(s.hover_state.is_visible);
    assert_eq!(s.hover_state.last_leave_time, Some(1_500));
    let _ = s.pointer_frame(&vec![PointerEvent::Motion { x: 5, y: 31 }], 2_600);
    assert!(!s.hover_state.is_visible);
}

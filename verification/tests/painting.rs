use dockman::canvas::{fill_rect, Rect};
use dockman::dock::{DockState, HoverState, MenuState};
use dockman::render::{
    clear_background, context_menu_rows, dock_items, draw_blue_box, fallback_size, fill_pixels, icon_samples, paint_context_menu,
    paint_dock, paint_probe, pinned_not_running, DockItem,
};
use dockman::windows::{WindowDiagnostics, WindowEntry};

fn window(id: u32, app: &str, name: &str, active: bool, icon: bool) -> WindowEntry {
    let mut info = WindowDiagnostics::new();
    info.app_id = app.to_string();
    info.app_name = name.to_string();
    info.is_activated = active;
    if icon {
        info.icon_rgba = Some(vec![0; 16]);
    }
    WindowEntry { id, info }
}

fn strings(v: &[&str]) -> Vec<String> {
    v.iter().map(|s| s.to_string()).collect()
}

fn px(canvas: &[u8], width: usize, x: usize, y: usize) -> [u8; 4] {
    let i = (y * width + x) * 4;
    [canvas[i], canvas[i + 1], canvas[i + 2], canvas[i + 3]]
}

fn item(app: &str, window: Option<u32>, active: bool, running: bool, icon: bool) -> DockItem {
    DockItem { app_id: app.to_string(), window, is_activated: active, is_running: running, has_icon: icon }
}

#[test]
fn fill_rect_clips_to_the_canvas() {
    let mut c = vec![9u8; 3 * 2 * 4 + 2];
    fill_rect(&mut c, 3, 2, Rect { x: 2, y: 1, w: 5, h: 5 }, [1, 2, 3, 4], 3);
    assert_eq!(px(&c, 3, 2, 1), [1, 2, 3, 9]);
    assert_eq!(px(&c, 3, 1, 1), [9, 9, 9, 9]);
    assert_eq!(px(&c, 3, 2, 0), [9, 9, 9, 9]);
    assert_eq!(&c[24..], &[9, 9]);
}

#[test]
fn background_is_clear_above_the_bar() {
    let mut c = vec![7u8; 2 * 61 * 4 + 3];
    clear_background(&mut c, 2, 61);
    assert_eq!(px(&c, 2, 0, 0), [0, 0, 0, 0]);
    assert_eq!(px(&c, 2, 1, 0), [0, 0, 0, 0]);
    assert_eq!(px(&c, 2, 0, 1), [0x11, 0x11, 0x11, 0xFF]);
    assert_eq!(px(&c, 2, 1, 60), [0x11, 0x11, 0x11, 0xFF]);
    assert_eq!(&c[2 * 61 * 4..], &[7, 7, 7]);
}

#[test]
fn idle_pins_are_sorted_and_unique() {
    let ws = vec![window(1, "foot", "Foot", false, false)];
    let r = pinned_not_running(&strings(&["zeta", "alpha", "foot", "alpha2", "zeta"]), &ws);
    assert_eq!(r, strings(&["alpha", "alpha2", "zeta"]));
    let r = pinned_not_running(&strings(&["b", "a", "B"]), &vec![]);
    assert_eq!(r, strings(&["B", "a", "b"]));
}

#[test]
fn dock_items_list_idle_pins_then_windows_by_name() {
    let ws = vec![window(3, "foot", "Foot", true, true), window(2, "bar", "Bar", false, false)];
    let items = dock_items(&strings(&["a", "foot"]), &ws, &strings(&["a"]));
    assert_eq!(items.len(), 3);
    assert_eq!(items[0].app_id, "a");
    assert_eq!(items[0].window, None);
    assert!(items[0].has_icon && !items[0].is_running);
    assert_eq!(items[1].window, Some(2));
    assert!(items[1].is_running && !items[1].is_activated && !items[1].has_icon);
    assert_eq!(items[2].window, Some(3));
    assert!(items[2].is_activated && items[2].has_icon);
}

#[test]
fn placeholder_and_indicator_are_painted() {
    let mut c = vec![0u8; 200 * 60 * 4];
    let items = vec![item("a", None, false, false, false)];
    let (shown, blits) = paint_dock(&mut c, 200, 60, &items);
    assert_eq!(shown, 1);
    assert!(blits.is_empty());
    // content 72 wide, centred: offset 64, slot at 76, icon top 6
    assert_eq!(px(&c, 200, 76, 6), [0x55, 0x55, 0x55, 0xFF]);
    assert_eq!(px(&c, 200, 123, 53), [0x55, 0x55, 0x55, 0xFF]);
    assert_eq!(px(&c, 200, 75, 6), [0, 0, 0, 0]);
    assert_eq!(px(&c, 200, 124, 6), [0, 0, 0, 0]);
    assert_eq!(px(&c, 200, 76, 54), [0, 0, 0, 0]);
    assert_eq!(px(&c, 200, 100, 58), [0, 0, 0, 0]);

    let mut c = vec![0u8; 200 * 60 * 4];
    let items = vec![item("foot", Some(3), true, true, true)];
    let (shown, blits) = paint_dock(&mut c, 200, 60, &items);
    assert_eq!(shown, 1);
    assert_eq!(blits, vec![(0, 76)]);
    assert_eq!(px(&c, 200, 76, 6), [0, 0, 0, 0]);
    assert_eq!(px(&c, 200, 84, 58), [0xFF, 0xFF, 0xFF, 0xFF]);
    assert_eq!(px(&c, 200, 115, 58), [0xFF, 0xFF, 0xFF, 0xFF]);
    assert_eq!(px(&c, 200, 83, 58), [0, 0, 0, 0]);
    assert_eq!(px(&c, 200, 116, 58), [0, 0, 0, 0]);

    let mut c = vec![0u8; 200 * 60 * 4];
    let items = vec![item("foot", Some(3), false, true, true)];
    let _ = paint_dock(&mut c, 200, 60, &items);
    assert_eq!(px(&c, 200, 96, 58), [0x66, 0x66, 0x66, 0xFF]);
    assert_eq!(px(&c, 200, 103, 58), [0x66, 0x66, 0x66, 0xFF]);
    assert_eq!(px(&c, 200, 95, 58), [0, 0, 0, 0]);
    assert_eq!(px(&c, 200, 104, 58), [0, 0, 0, 0]);
}

#[test]
fn slots_past_the_edge_are_not_painted() {
    let mut c = vec![0u8; 100 * 60 * 4];
    let items = vec![item("a", None, false, false, true), item("b", None, false, false, true)];
    let (shown, blits) = paint_dock(&mut c, 100, 60, &items);
    assert_eq!(shown, 1);
    assert_eq!(blits, vec![(0, 12)]);
}

#[test]
fn icon_samples_scale_the_image_to_the_slot() {
    let all = icon_samples(0, 0, 48, 48, 2, 16);
    assert_eq!(all.len(), 48 * 48);
    assert_eq!(all[0], (0, 0));
    assert_eq!(all[24], (24 * 4, 4));
    assert_eq!(all[48 * 48 - 1], ((47 * 48 + 47) * 4, 12));
    let short = icon_samples(0, 0, 48, 48, 2, 15);
    assert_eq!(short.len(), 48 * 48 - 24 * 24);
    let clipped = icon_samples(40, 0, 50, 48, 2, 16);
    assert_eq!(clipped.len(), 10 * 48);
    assert_eq!(clipped[0], (40 * 4, 0));
}

#[test]
fn context_menu_is_kept_on_the_surface() {
    let mut c = vec![0u8; 200 * 200 * 4];
    let menu = MenuState { x: 150, y: 100, target_window: None, target_app_id: None, is_open: true };
    paint_context_menu(&mut c, 200, 200, &menu);
    assert_eq!(px(&c, 200, 80, 10), [0x22, 0x22, 0x22, 0xFF]);
    assert_eq!(px(&c, 200, 199, 99), [0x22, 0x22, 0x22, 0xFF]);
    assert_eq!(px(&c, 200, 80, 40), [0x44, 0x44, 0x44, 0xFF]);
    assert_eq!(px(&c, 200, 150, 70), [0x44, 0x44, 0x44, 0xFF]);
    assert_eq!(px(&c, 200, 79, 10), [0, 0, 0, 0]);
    assert_eq!(px(&c, 200, 80, 9), [0, 0, 0, 0]);
    assert_eq!(px(&c, 200, 80, 100), [0, 0, 0, 0]);

    let mut c = vec![0u8; 200 * 200 * 4];
    let closed = MenuState { is_open: false, ..menu };
    paint_context_menu(&mut c, 200, 200, &closed);
    assert!(c.iter().all(|b| *b == 0));
}

#[test]
fn blue_box_draws_only_the_border() {
    let mut f = vec![0u8; 4 * 4 * 4];
    draw_blue_box(&mut f, 4, 0, 3, 0, 3);
    assert_eq!(px(&f, 4, 0, 0), [255, 100, 0, 255]);
    assert_eq!(px(&f, 4, 3, 2), [255, 100, 0, 255]);
    assert_eq!(px(&f, 4, 1, 1), [0, 0, 0, 0]);
    assert_eq!(px(&f, 4, 2, 2), [0, 0, 0, 0]);

    let mut f = vec![0u8; 4 * 4 * 4 - 1];
    draw_blue_box(&mut f, 4, 1, 3, 2, 3);
    assert_eq!(px(&f, 4, 1, 2), [255, 100, 0, 255]);
    assert_eq!(&f[(3 * 4 + 3) * 4..], &[0, 0, 0]);

    let mut f = vec![0u8; 16];
    draw_blue_box(&mut f, 4, 2, 1, 0, 0);
    assert!(f.iter().all(|b| *b == 0));
}

fn state(pinned: &[&str], windows: Vec<WindowEntry>) -> DockState {
    DockState {
        width: 0,
        height: 0,
        pointer_x: 0,
        pointer_y: 0,
        open_windows: windows,
        pinned_apps: strings(pinned),
        menu_state: MenuState { x: 0, y: 0, target_window: None, target_app_id: None, is_open: false },
        hover_state: HoverState { x: 0, app_id: None, is_visible: false, last_leave_time: None },
        needs_redraw: false,
        last_interact_time: 0,
    }
}

#[test]
fn surface_fits_the_icons() {
    let s = state(&["a", "b"], vec![window(1, "c", "C", false, false), window(2, "a", "A", false, false)]);
    assert_eq!(s.surface_size(), (192, 60));
    let mut s = state(&[], vec![]);
    assert_eq!(s.surface_size(), (100, 60));
    s.menu_state.is_open = true;
    assert!(s.fit_surface());
    assert_eq!((s.width, s.height), (100, 200));
    assert!(!s.fit_surface());
    s.configure(50);
    assert_eq!((s.width, s.height), (100, 200));
    s.menu_state.is_open = false;
    s.configure(300);
    assert_eq!((s.width, s.height), (300, 60));
}

#[test]
fn whole_pixels_are_filled() {
    let mut c = vec![0u8; 10];
    fill_pixels(&mut c, [1, 2, 3, 4]);
    assert_eq!(c, vec![1, 2, 3, 4, 1, 2, 3, 4, 0, 0]);
    assert_eq!(fallback_size(0, 0), (1200, 60));
    assert_eq!(fallback_size(5, 7), (5, 7));
}

#[test]
fn probe_square_sits_left_of_centre() {
    let mut c = vec![0u8; 100 * 60 * 4];
    paint_probe(&mut c, 100, 60);
    assert_eq!(px(&c, 100, 0, 0), [0x11, 0x11, 0x11, 0xFF]);
    assert_eq!(px(&c, 100, 20, 6), [0xFF, 0x44, 0x11, 0xFF]);
    assert_eq!(px(&c, 100, 67, 53), [0xFF, 0x44, 0x11, 0xFF]);
    assert_eq!(px(&c, 100, 68, 53), [0x11, 0x11, 0x11, 0xFF]);
}

#[test]
fn context_menu_rows_are_centred() {
    let rows = context_menu_rows(true);
    let labels: Vec<&str> = rows.iter().map(|r| r.label.as_str()).collect();
    assert_eq!(labels, vec!["Focus", "Open", "Minimize", "Close", "Unpin"]);
    let xs: Vec<usize> = rows.iter().map(|r| r.text_x).collect();
    assert_eq!(xs, vec![42, 46, 32, 42, 42]);
    let tops: Vec<u32> = rows.iter().map(|r| r.top).collect();
    assert_eq!(tops, vec![0, 30, 60, 90, 120]);
    assert_eq!(rows[4].baseline, 142);
    let rows = context_menu_rows(false);
    assert_eq!(rows[4].label, "Pin");
    assert_eq!(rows[4].text_x, 49);
}

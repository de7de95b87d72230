use dockman::panel::{
    click_demo, click_live, find_hit, layout_panel, live_event, mode_message, paint_square, place_demo_entries, place_live_entries,
    track_toplevel, PanelClick, TrackedEntry, TrackedWindow,
};
use dockman::windows::ToplevelEvent;

fn demo(app: &str, title: &str, active: bool, range: (usize, usize)) -> TrackedWindow {
    TrackedWindow {
        title: title.to_string(),
        app_id: app.to_string(),
        is_activated: active,
        is_minimized: false,
        x_start: range.0,
        x_end: range.1,
    }
}

#[test]
fn default_window_is_blank() {
    let w = TrackedWindow::default();
    assert!(w.title.is_empty() && w.app_id.is_empty());
    assert!(!w.is_activated && !w.is_minimized);
    assert_eq!((w.x_start, w.x_end), (0, 0));
}

#[test]
fn labels_show_the_status() {
    let mut w = demo("edge", "Browser", true, (0, 0));
    assert_eq!(w.status(), "(Active)");
    assert_eq!(w.label(), "edge: Browser (Active)");
    w.is_minimized = true;
    assert_eq!(w.label(), "edge: Browser (Minimized)");
    w.is_minimized = false;
    w.is_activated = false;
    assert_eq!(w.status(), "(Idle)");
    assert_eq!(mode_message(true), "[DEMO BRIDGE ACTIVE - CLICK BOXES TO TEST]");
    assert_eq!(mode_message(false), "[LIVE WAYLAND SYSTEM METRICS OVERLAY]");
}

#[test]
fn hits_take_the_first_entry_with_ends_included() {
    let ws = vec![demo("a", "", false, (10, 20)), demo("b", "", false, (20, 30))];
    assert_eq!(find_hit(&ws, 20), Some(0));
    assert_eq!(find_hit(&ws, 21), Some(1));
    assert_eq!(find_hit(&ws, 30), Some(1));
    assert_eq!(find_hit(&ws, 31), None);
    assert_eq!(find_hit(&ws, 9), None);
}

#[test]
fn clicking_an_idle_window_makes_it_the_only_active_one() {
    let mut ws = vec![
        demo("edge", "Browser", true, (20, 100)),
        demo("alacritty", "Shell", false, (140, 220)),
        demo("pcmanfm", "Files", true, (260, 340)),
    ];
    ws[1].is_minimized = true;
    assert_eq!(click_demo(&mut ws, 150), Some(1));
    assert!(ws[1].is_activated && !ws[1].is_minimized);
    assert!(!ws[0].is_activated && !ws[2].is_activated);
}

#[test]
fn clicking_the_active_window_twice_restores_it() {
    let mut ws = vec![demo("edge", "Browser", true, (20, 100)), demo("foot", "Shell", false, (140, 220))];
    assert_eq!(click_demo(&mut ws, 20), Some(0));
    assert!(!ws[0].is_activated && ws[0].is_minimized);
    assert!(!ws[1].is_activated && !ws[1].is_minimized);
    assert_eq!(click_demo(&mut ws, 100), Some(0));
    assert!(ws[0].is_activated && !ws[0].is_minimized);
    assert_eq!(click_demo(&mut ws, 500), None);
    assert!(ws[0].is_activated);
}

#[test]
fn live_clicks_minimize_or_activate() {
    let ws = vec![
        TrackedEntry { id: 5, window: demo("a", "", true, (20, 60)) },
        TrackedEntry { id: 6, window: demo("b", "", false, (100, 160)) },
    ];
    assert!(matches!(click_live(&ws, 30), Some(PanelClick::Minimize(5))));
    assert!(matches!(click_live(&ws, 100), Some(PanelClick::Activate(6))));
    assert!(click_live(&ws, 80).is_none());
}

#[test]
fn entries_are_laid_out_until_the_edge() {
    assert_eq!(layout_panel(&vec![10, 20], 1000), vec![(20, 74), (114, 178)]);
    assert_eq!(layout_panel(&vec![10, 20], 100), vec![(20, 74)]);
    assert_eq!(layout_panel(&vec![], 100), vec![]);
}

#[test]
fn extents_are_recorded() {
    let mut ws = vec![demo("a", "x", false, (0, 0)), demo("b", "y", false, (0, 0)), demo("a", "z", true, (0, 0))];
    place_demo_entries(&mut ws, &vec![(20, 74), (114, 178), (218, 300)]);
    // entries 0 and 2 share an app id: both land on window 0, the later one last
    assert_eq!((ws[0].x_start, ws[0].x_end), (218, 300));
    assert_eq!(ws[0].title, "z");
    assert!(ws[0].is_activated);
    assert_eq!((ws[1].x_start, ws[1].x_end), (114, 178));
    assert_eq!((ws[2].x_start, ws[2].x_end), (0, 0));

    let mut live = vec![TrackedEntry { id: 1, window: demo("a", "", false, (0, 0)) }, TrackedEntry { id: 2, window: demo("b", "", false, (0, 0)) }];
    place_live_entries(&mut live, &vec![(20, 74)]);
    assert_eq!((live[0].window.x_start, live[0].window.x_end), (20, 74));
    assert_eq!(live[0].id, 1);
    assert_eq!((live[1].window.x_start, live[1].window.x_end), (0, 0));
}

#[test]
fn squares_are_centred_vertically() {
    let mut c = vec![0u8; 40 * 40 * 4];
    paint_square(&mut c, 40, 40, 2, true);
    let at = |c: &Vec<u8>, x: usize, y: usize| {
        let i = (y * 40 + x) * 4;
        [c[i], c[i + 1], c[i + 2], c[i + 3]]
    };
    assert_eq!(at(&c, 2, 4), [245, 160, 40, 0]);
    assert_eq!(at(&c, 33, 35), [245, 160, 40, 0]);
    assert_eq!(at(&c, 2, 3), [0, 0, 0, 0]);
    assert_eq!(at(&c, 2, 36), [0, 0, 0, 0]);
    assert_eq!(at(&c, 34, 4), [0, 0, 0, 0]);

    let mut c = vec![0u8; 40 * 20 * 4];
    paint_square(&mut c, 40, 20, 0, false);
    assert_eq!(&c[0..4], &[180, 70, 10, 0]);
    let last = (19 * 40 + 31) * 4;
    assert_eq!(&c[last..last + 4], &[180, 70, 10, 0]);
}

#[test]
fn live_events_update_known_windows_only() {
    let mut ws: Vec<TrackedEntry> = vec![];
    track_toplevel(&mut ws, 9);
    assert_eq!(ws.len(), 1);
    assert_eq!(ws[0].id, 9);
    assert!(!live_event(&mut ws, 9, ToplevelEvent::Title("Doc".to_string())));
    assert!(!live_event(&mut ws, 9, ToplevelEvent::AppId("writer".to_string())));
    let mut state = Vec::new();
    state.extend_from_slice(&2u32.to_ne_bytes());
    state.extend_from_slice(&1u32.to_ne_bytes());
    assert!(!live_event(&mut ws, 9, ToplevelEvent::State(state)));
    assert_eq!(ws[0].window.title, "Doc");
    assert_eq!(ws[0].window.app_id, "writer");
    assert!(ws[0].window.is_activated && ws[0].window.is_minimized);
    assert!(!live_event(&mut ws, 4, ToplevelEvent::Title("other".to_string())));
    assert!(!live_event(&mut ws, 4, ToplevelEvent::Closed));
    assert_eq!(ws.len(), 1);
    assert!(live_event(&mut ws, 9, ToplevelEvent::Done));
    track_toplevel(&mut ws, 9);
    assert_eq!(ws.len(), 1);
    assert!(ws[0].window.title.is_empty());
    assert!(live_event(&mut ws, 9, ToplevelEvent::Closed));
    assert!(ws.is_empty());
}

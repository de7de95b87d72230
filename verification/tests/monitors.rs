use dockman::tracker::{name_closed, name_update, set_icon, set_pid, shown_or, tracker_event, NamedWindow, TrackerAction, TrackerEntry, TrackerEvent};

#[test]
fn tracker_names_and_titles() {
    let mut v: Vec<TrackerEntry> = vec![];
    assert_eq!(tracker_event(&mut v, 3, TrackerEvent::AppId(String::new()), "[Untitled]"), TrackerAction::ResolveIcon);
    assert_eq!(v.len(), 1);
    assert_eq!(v[0].id, 3);
    assert_eq!(v[0].app_name, "taskman");
    assert_eq!(tracker_event(&mut v, 3, TrackerEvent::AppId("foot".to_string()), "[Untitled]"), TrackerAction::ResolveIcon);
    assert_eq!(v[0].app_name, "foot");
    assert_eq!(tracker_event(&mut v, 3, TrackerEvent::Title(String::new()), "[Untitled Canvas]"), TrackerAction::Nothing);
    assert_eq!(v[0].title, "[Untitled Canvas]");
    assert_eq!(tracker_event(&mut v, 3, TrackerEvent::Title("vim".to_string()), "[Untitled]"), TrackerAction::Nothing);
    assert_eq!(v[0].title, "vim");
    assert_eq!(tracker_event(&mut v, 8, TrackerEvent::Done, "[Untitled]"), TrackerAction::MatchProcess);
    assert_eq!(v.len(), 2);
    assert_eq!(v[1].app_name, "");
    assert_eq!(tracker_event(&mut v, 8, TrackerEvent::Other, "[Untitled]"), TrackerAction::Nothing);
    assert_eq!(tracker_event(&mut v, 3, TrackerEvent::Closed, "[Untitled]"), TrackerAction::Nothing);
    assert_eq!(v.len(), 1);
    assert_eq!(v[0].id, 8);
}

#[test]
fn tracker_stores_icons_and_processes() {
    let mut v: Vec<TrackerEntry> = vec![];
    tracker_event(&mut v, 1, TrackerEvent::AppId("foot".to_string()), "[Untitled]");
    set_icon(&mut v, 1, "utilities-terminal".to_string(), "X".to_string());
    set_icon(&mut v, 2, "nothing".to_string(), "Y".to_string());
    assert_eq!(v.len(), 1);
    assert_eq!(v[0].icon_name, "utilities-terminal");
    assert_eq!(v[0].terminal_icon_code, "X");
    set_pid(&mut v, 1, Some(4242));
    assert_eq!(v[0].matched_pid, Some(4242));
    set_pid(&mut v, 1, None);
    assert_eq!(v[0].matched_pid, Some(4242));
}

#[test]
fn name_changes_are_reported_once() {
    let mut v: Vec<NamedWindow> = vec![];
    let c = name_update(&mut v, 5, "", "Terminal").expect("first sight of a title is a change");
    assert_eq!(c.app_id, "[BLANK APP_ID]");
    assert_eq!(c.title, "Terminal");
    assert_eq!(c.was_app_id, "");
    assert_eq!(c.was_title, "");
    assert!(name_update(&mut v, 5, "", "Terminal").is_none());
    let c = name_update(&mut v, 5, "foot", "").expect("changed");
    assert_eq!(c.app_id, "foot");
    assert_eq!(c.title, "[BLANK TITLE]");
    assert_eq!(c.was_title, "Terminal");
    assert!(name_update(&mut v, 5, "foot", "").is_none());
    assert_eq!(v.len(), 1);
}

#[test]
fn closing_reports_the_last_name() {
    let mut v: Vec<NamedWindow> = vec![];
    name_update(&mut v, 5, "", "Terminal");
    assert_eq!(name_closed(&mut v, 5), Some(("[BLANK APP_ID]".to_string(), "Terminal".to_string())));
    assert!(v.is_empty());
    assert_eq!(name_closed(&mut v, 5), None);
    assert_eq!(shown_or("x", "[BLANK]"), "x");
    assert_eq!(shown_or("", "[BLANK]"), "[BLANK]");
}

use dockman::desktop::{
    application_dirs, build_desktop_index, candidate_paths, desktop_file_paths, extract_icon_name, find_desktop_file_by_exec,
    find_desktop_file_by_name, find_icon_by_name, get_icon, get_icon_from_desktop, icon_candidates, index_dirs, listed_icon,
    monitor_candidates, monitor_icon_name, parse_desktop_file, split_lines, DesktopFile, DesktopSource,
};
use dockman::icons::{find_icon_path, find_matching_pid, find_plausible_icon, get_icon_path, is_svg_path, locate_icon_file, search_in_icon_list, ProcessInfo};
use dockman::paths::{extension, file_stem};
use dockman::persistence::{
    cached_icon_path, get_cache_dir, get_config_dir, get_config_path, load_cached_icon, load_pinned_apps, save_cached_icon, save_pinned_apps,
    toggle_pin,
};
use dockman::strmap::StrMap;
use dockman::text::trim;
use dockman::windows::{announce_toplevel, handle_toplevel_event, icon_to_cache, parse_window_states, ToplevelEvent, WindowEntry};

fn strings(v: &[&str]) -> Vec<String> {
    v.iter().map(|s| s.to_string()).collect()
}

fn chars(s: &str) -> Vec<char> {
    s.chars().collect()
}

fn file(path: &str, lines: &[&str]) -> DesktopFile {
    DesktopFile { path: path.to_string(), lines: strings(lines) }
}

#[test]
fn window_states_come_from_native_words() {
    let mut b = Vec::new();
    b.extend_from_slice(&2u32.to_ne_bytes());
    assert_eq!(parse_window_states(&b), (true, false));
    b.extend_from_slice(&1u32.to_ne_bytes());
    assert_eq!(parse_window_states(&b), (true, true));
    assert_eq!(parse_window_states(&7u32.to_ne_bytes()), (false, false));
    assert_eq!(parse_window_states(&[2, 0, 0]), (false, false));
    assert_eq!(parse_window_states(&[]), (false, false));
    let mut c = Vec::new();
    c.extend_from_slice(&0u32.to_ne_bytes());
    c.extend_from_slice(&3u32.to_ne_bytes());
    c.extend_from_slice(&1u32.to_ne_bytes());
    c.extend_from_slice(&[2, 0]);
    assert_eq!(parse_window_states(&c), (false, true));
}

#[test]
fn pinning_caches_the_loaded_icon_or_the_windows() {
    let mut ws: Vec<WindowEntry> = vec![];
    announce_toplevel(&mut ws, 1);
    announce_toplevel(&mut ws, 2);
    announce_toplevel(&mut ws, 3);
    handle_toplevel_event(&mut ws, 1, ToplevelEvent::AppId("gimp".to_string()));
    handle_toplevel_event(&mut ws, 2, ToplevelEvent::AppId("foot".to_string()));
    handle_toplevel_event(&mut ws, 3, ToplevelEvent::AppId("foot".to_string()));
    ws[1].info.icon_rgba = Some(vec![1, 2, 3, 4]);
    ws[1].info.icon_size = 1;
    ws[2].info.icon_rgba = Some(vec![9, 9, 9, 9]);
    let loaded = vec![7u8, 7, 7, 7];
    assert_eq!(icon_to_cache(Some((&loaded, 1)), &ws, "foot"), Some((loaded.clone(), 1)));
    assert_eq!(icon_to_cache(None, &ws, "foot"), Some((vec![1, 2, 3, 4], 1)));
    assert_eq!(icon_to_cache(None, &ws, "gimp"), None);
    assert_eq!(icon_to_cache(None, &ws, "none"), None);
}

#[test]
fn toplevel_events_fill_in_the_window_table() {
    let mut ws: Vec<WindowEntry> = vec![];
    assert!(announce_toplevel(&mut ws, 4));
    assert!(announce_toplevel(&mut ws, 4));
    assert_eq!(ws.len(), 1);
    assert_eq!(ws[0].info.app_name, "Unknown");
    assert_eq!(ws[0].info.icon_size, 48);
    let out = handle_toplevel_event(&mut ws, 4, ToplevelEvent::AppId("foot".to_string()));
    assert!(out.redraw && out.refresh_icon);
    assert_eq!(ws[0].info.app_id, "foot");
    assert_eq!(ws[0].info.app_name, "foot");
    let out = handle_toplevel_event(&mut ws, 4, ToplevelEvent::Title("shell".to_string()));
    assert!(out.redraw && out.refresh_icon);
    let out = handle_toplevel_event(&mut ws, 4, ToplevelEvent::State(2u32.to_ne_bytes().to_vec()));
    assert!(out.redraw && !out.refresh_icon);
    assert!(ws[0].info.is_activated && !ws[0].info.is_minimized);
    let out = handle_toplevel_event(&mut ws, 6, ToplevelEvent::Other);
    assert!(!out.redraw);
    assert_eq!(ws.len(), 2);
    let out = handle_toplevel_event(&mut ws, 4, ToplevelEvent::Closed);
    assert!(out.redraw);
    assert_eq!(ws.len(), 1);
    assert_eq!(ws[0].id, 6);
}

#[test]
fn config_and_cache_paths() {
    assert_eq!(get_config_dir(Some("/home/u")), "/home/u/.config/dockman");
    assert_eq!(get_config_path(Some("/home/u")), "/home/u/.config/dockman/pins.json");
    assert_eq!(get_config_path(None), "/tmp/.config/dockman/pins.json");
    assert_eq!(get_cache_dir(Some("/home/u")), "/home/u/.config/dockman/cached_icons");
    assert_eq!(get_cache_dir(None), "./.config/dockman/cached_icons");
    assert_eq!(cached_icon_path(Some("/home/u/"), "foot"), "/home/u/.config/dockman/cached_icons/foot.raw");
}

#[test]
fn pins_round_trip_through_json() {
    let mut pins = load_pinned_apps(Some("[\"foot\", \"firefox\", \"foot\"]"));
    pins.sort();
    assert_eq!(pins, strings(&["firefox", "foot"]));
    assert!(load_pinned_apps(Some("{\"foot\": 1}")).is_empty());
    assert!(load_pinned_apps(None).is_empty());
    assert_eq!(save_pinned_apps(&strings(&["a", "b\"c"])), "[\"a\",\"b\\\"c\"]");
    let saved = strings(&["zed", "b\"c", "tab\there", "\u{e9}t\u{e9}", "zed"]);
    let mut back = load_pinned_apps(Some(&save_pinned_apps(&saved)));
    back.sort();
    assert_eq!(back, strings(&["b\"c", "tab\there", "zed", "\u{e9}t\u{e9}"]));
}

#[test]
fn toggling_a_pin_twice_restores_the_set() {
    let mut pins = strings(&["a", "b"]);
    assert!(toggle_pin(&mut pins, "c".to_string()));
    assert!(pins.contains(&"c".to_string()));
    assert!(!toggle_pin(&mut pins, "c".to_string()));
    let mut sorted = pins.clone();
    sorted.sort();
    assert_eq!(sorted, strings(&["a", "b"]));
    assert!(!toggle_pin(&mut pins, "a".to_string()));
    assert_eq!(pins, strings(&["b"]));
}

#[test]
fn cached_icons_read_back() {
    let bytes = save_cached_icon(48, 32, &[1, 2, 3]);
    assert_eq!(bytes.len(), 11);
    assert_eq!(&bytes[0..4], &48u32.to_ne_bytes());
    assert_eq!(&bytes[4..8], &32u32.to_ne_bytes());
    assert_eq!(load_cached_icon(&bytes), Some((vec![1, 2, 3], 48)));
    assert_eq!(load_cached_icon(&[1, 2, 3]), None);
}

#[test]
fn desktop_entries_are_parsed() {
    let text = "# comment\nName=Outside\n[Desktop Entry]\r\nName = Foot \nIcon=foot\nExec=/usr/bin/foot --server\n[Desktop Action new]\nIcon=other\n";
    let m = parse_desktop_file(text);
    assert_eq!(m.get(&chars("Icon")), Some(chars("foot")));
    assert_eq!(m.get(&chars("Name ")), Some(chars(" Foot")));
    assert_eq!(m.get(&chars("Exec")), Some(chars("/usr/bin/foot --server")));
    assert_eq!(m.get(&chars("Name")), None);
    assert_eq!(split_lines("a\r\nb\n\nc\n"), vec![chars("a"), chars("b"), chars(""), chars("c")]);
    assert_eq!(listed_icon("Name=x\nIcon= firefox \n"), " firefox ");
    assert_eq!(listed_icon("Name=x\n"), "None");
}

#[test]
fn desktop_index_maps_classes_executables_and_stems() {
    let files = vec![
        DesktopSource { path: "/a/org.foot.Foot.desktop".to_string(), content: "[Desktop Entry]\nIcon=foot\nExec=/usr/bin/foot -s\nStartupWMClass=FootTerm\n".to_string() },
        DesktopSource { path: "/a/steam.desktop".to_string(), content: "[Desktop Entry]\nIcon=steam\nExec=steam %U\n".to_string() },
        DesktopSource { path: "/a/other.desktop".to_string(), content: "[Desktop Entry]\nIcon=other\nExec=foot\n".to_string() },
        DesktopSource { path: "/a/noicon.desktop".to_string(), content: "[Desktop Entry]\nExec=noicon\n".to_string() },
        DesktopSource { path: "/a/readme.txt".to_string(), content: "[Desktop Entry]\nIcon=x\nExec=x\n".to_string() },
    ];
    let ix = build_desktop_index(&files);
    assert_eq!(get_icon(&ix, "FootTerm"), Some("foot".to_string()));
    assert_eq!(get_icon(&ix, "foot"), Some("foot".to_string()));
    assert_eq!(get_icon(&ix, "org.foot.Foot"), Some("foot".to_string()));
    assert_eq!(get_icon(&ix, "steamwebhelper"), Some("steam".to_string()));
    assert_eq!(get_icon(&ix, "other"), Some("other".to_string()));
    assert_eq!(get_icon(&ix, "noicon"), None);
    assert_eq!(get_icon(&ix, "readme"), None);
    assert_eq!(index_dirs("/home/u"), strings(&["/usr/share/applications", "/home/u/.local/share/applications"]));
}

#[test]
fn desktop_files_are_found_by_name_exec_and_icon() {
    let files = vec![
        file("/a/notes.txt", &["Name=Firefox Web Browser"]),
        file("/a/org.mozilla.firefox.desktop", &["Name=Firefox Web Browser", "Exec=/usr/lib/firefox/firefox %u", "Icon=firefox"]),
        file("/a/foot.desktop", &["Name=Foot", "Exec=foot", "Icon=foot"]),
    ];
    assert_eq!(find_desktop_file_by_name("Firefox", &files), Some("org.mozilla.firefox".to_string()));
    assert_eq!(find_desktop_file_by_name("foot server", &files), Some("foot".to_string()));
    assert_eq!(find_desktop_file_by_name("gimp", &files), None);
    assert_eq!(find_desktop_file_by_exec("Firefox_3", &files), Some("org.mozilla.firefox".to_string()));
    assert_eq!(find_desktop_file_by_exec("Firefox_3_x", &files), find_desktop_file_by_exec("Firefox", &files));
    assert_eq!(find_desktop_file_by_exec("gimp", &files), None);
    assert_eq!(find_icon_by_name("FOOT", &files), Some("foot".to_string()));
    assert_eq!(find_icon_by_name("Firefox", &files), None);
}

#[test]
fn icon_names_are_looked_up_in_order() {
    let c = vec![None, Some(strings(&["Name=x"])), Some(strings(&["Name=y", "Icon=  yicon "])), Some(strings(&["Icon=z"]))];
    assert_eq!(get_icon_from_desktop(&c), Some("yicon".to_string()));
    assert_eq!(get_icon_from_desktop(&vec![None]), None);
    assert_eq!(extract_icon_name("app", None, Some("b".to_string()), Some("c".to_string())), "b");
    assert_eq!(extract_icon_name("app", None, None, None), "app");
    assert_eq!(monitor_icon_name("", Some("x".to_string())), "unknown-icon");
    assert_eq!(monitor_icon_name("foot", None), "foot");
    assert_eq!(monitor_icon_name("foot", Some("utilities-terminal".to_string())), "utilities-terminal");
    assert_eq!(icon_candidates("Foot"), strings(&["foot.desktop", "org.gnome.Foot.desktop", "org.kde.Foot.desktop", "com.Foot.desktop"]));
    assert_eq!(monitor_candidates("Foot"), strings(&["Foot.desktop", "foot.desktop", "org.gnome.Foot.desktop", "org.kde.Foot.desktop"]));
}

#[test]
fn search_directories_follow_xdg() {
    assert_eq!(
        application_dirs(None, Some("/home/u")),
        strings(&["/home/u/.local/share/applications", "/usr/local/share/applications", "/usr/share/applications"])
    );
    assert_eq!(application_dirs(Some("/opt/share"), None), strings(&["/opt/share/applications"]));
    assert_eq!(desktop_file_paths(&strings(&["/x", "/y/"]), "foot"), strings(&["/x/foot.desktop", "/y/foot.desktop"]));
    assert_eq!(candidate_paths(&strings(&["/x", "/y"]), &strings(&["a", "b"])), strings(&["/x/a", "/x/b", "/y/a", "/y/b"]));
}

#[test]
fn icon_files_are_matched() {
    let scalable = strings(&["/s/other.svg", "/s/Firefox.svg", "/s/firefox", "/s/deep/firefox.svg", "/s/firefox.svg"]);
    let sized = strings(&["/m/foot.svg", "/m/foot.png"]);
    let list = strings(&["1 | /l/gimp.png", "broken line", "2|/l/foot.png |x"]);
    assert_eq!(find_icon_path(&scalable, "firefox.svg"), Some("/s/deep/firefox.svg".to_string()));
    assert_eq!(find_icon_path(&scalable, "firefox"), Some("/s/firefox".to_string()));
    assert_eq!(find_icon_path(&scalable, "FIREFOX.svg"), None);
    assert_eq!(get_icon_path("firefox", &scalable, &sized, Some(&list)), Some("/s/deep/firefox.svg".to_string()));
    assert_eq!(get_icon_path("Firefox", &scalable, &sized, Some(&list)), Some("/s/Firefox.svg".to_string()));
    assert_eq!(get_icon_path("foot", &scalable, &sized, Some(&list)), Some("/m/foot.png".to_string()));
    assert_eq!(get_icon_path("gimp", &scalable, &sized, Some(&list)), Some("/l/gimp.png".to_string()));
    assert_eq!(get_icon_path("gimp", &scalable, &sized, None), None);
    assert_eq!(search_in_icon_list(Some(&list), "FOOT"), Some("/l/foot.png".to_string()));
    let walk = strings(&["/i/readme.txt", "/i/Foot-Terminal.SVG", "/i/apps/foot-terminal.svg", "/i/apps/Utilities-Terminal.png"]);
    assert_eq!(locate_icon_file(&walk, "Terminal", "x"), Some("/i/apps/foot-terminal.svg".to_string()));
    assert_eq!(locate_icon_file(&walk, "none", "none"), None);
    assert_eq!(find_plausible_icon(&walk), Some("/i/apps/Utilities-Terminal.png".to_string()));
    assert_eq!(is_svg_path("/a/b.SvG"), Some(true));
    assert_eq!(is_svg_path("/a/b.png"), Some(false));
    assert_eq!(is_svg_path("/a/b"), None);
    assert_eq!(file_stem("/a/b.tar.gz"), Some(chars("b.tar")));
    assert_eq!(extension("/a/.bashrc"), None);
}

#[test]
fn processes_are_matched_by_name() {
    let procs = vec![ProcessInfo { pid: 10, name: "systemd".to_string() }, ProcessInfo { pid: 42, name: "Foot".to_string() }];
    assert_eq!(find_matching_pid(&procs, "foot", false), Some(42));
    assert_eq!(find_matching_pid(&procs, "footclient", false), None);
    assert_eq!(find_matching_pid(&procs, "footclient", true), Some(42));
    assert_eq!(find_matching_pid(&procs, "gimp", true), None);
}

#[test]
fn string_map_keeps_the_last_value() {
    let mut m = StrMap::new();
    m.insert(chars("a"), chars("1"));
    m.insert(chars("a"), chars("2"));
    assert_eq!(m.get(&chars("a")), Some(chars("2")));
    m.insert_if_absent(chars("a"), chars("3"));
    m.insert_if_absent(chars("b"), chars("4"));
    assert_eq!(m.get(&chars("a")), Some(chars("2")));
    assert_eq!(m.get(&chars("b")), Some(chars("4")));
    assert_eq!(m.get(&chars("c")), None);
}

#[test]
fn trimming_follows_unicode_white_space() {
    assert_eq!(trim(&chars("\u{3000}\t a b\u{85}\u{2009}\n")), chars("a b"));
    assert_eq!(trim(&chars("\u{200B}x")), chars("\u{200B}x"));
    for c in ['\t', '\n', '\u{b}', '\u{c}', '\r', ' ', '\u{85}', '\u{a0}', '\u{1680}', '\u{2000}', '\u{200a}', '\u{2028}', '\u{2029}', '\u{202f}', '\u{205f}', '\u{3000}'] {
        assert!(c.is_whitespace());
        assert_eq!(trim(&vec![c]), Vec::<char>::new());
    }
}

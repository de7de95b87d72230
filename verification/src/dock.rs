//! How the dock reacts to the pointer: hover previews, the context menu, and clicks
//! on icons.  One frame of pointer events maps the dock's state to its next state and
//! to the list of things the caller has to do (activate a window, launch an app, ...).
use vstd::prelude::*;
use crate::text::{
    chars_of, contains, is_numeric, not_char, rfind_char_tail, rspan_len, spec_contains, spec_is_numeric,
    spec_to_lowercase, string_of, string_of_range, to_lowercase, chars_eq, opt_view,
};
use crate::layout::{
    BOX_SIZE, DOCK_HEIGHT, DockLayout, compute_layout, icon_at, layout_of, running_windows,
    running_ids, running_ids_of, lemma_running_ids, sort_by_name, entries_model, spec_dock_apps, spec_icon_at,
    slot_x, start_offset, str_views, views, lemma_slot_unique, on_slot,
};
use crate::windows::{WindowEntry, find_window, ids_unique, lemma_table_view, table_view};

verus! {

/// Width of the context menu.
pub const MENU_WIDTH: u32 = 120;
/// Height of the context menu.
pub const MENU_HEIGHT: u32 = 150;
/// Number of rows of the context menu (Focus, Open, Minimize, Close, Pin/Unpin).
pub const MENU_ITEM_COUNT: u32 = 5;
/// Height of one context menu row.
pub const MENU_ITEM_HEIGHT: u32 = MENU_HEIGHT / MENU_ITEM_COUNT;
/// Width of the window-list popup that appears above a hovered dock icon.
pub const HOVER_MENU_WIDTH: u32 = 200;
/// Height of one row of the window-list popup.
pub const HOVER_ITEM_HEIGHT: u32 = 30;
/// How far the pointer may stray from the context menu before it closes.
pub const MENU_LEEWAY: usize = 20;
/// How long the popup stays after the pointer left it, in milliseconds.
pub const HOVER_GRACE_MS: u64 = 1000;
/// Linux input code of the left mouse button.
pub const BUTTON_LEFT: u32 = 272;
/// Linux input code of the right mouse button.
pub const BUTTON_RIGHT: u32 = 273;
/// Distance between the left edges of neighbouring icon slots.
pub const SLOT_STRIDE: usize = 60;
const SPACING_USIZE: usize = 12;

pub open spec fn sat_sub(a: int, b: int) -> int {
    if a >= b { a - b } else { 0 }
}

pub open spec fn min_int(a: int, b: int) -> int {
    if a <= b { a } else { b }
}

/// `(px, py)` lies in the rectangle at `(x, y)` of size `w` x `h`, edges included.
pub open spec fn in_box(px: int, py: int, x: int, y: int, w: int, h: int) -> bool {
    x <= px <= x + w && y <= py <= y + h
}

/// Where the window-list popup for an icon centred at `x` goes:
/// `(menu_x, menu_y, menu_width, menu_height)`.
pub open spec fn spec_hover_menu_bounds(x: int, width: int, height: int, windows_count: int) -> (int, int, int, int) {
    let menu_width = HOVER_MENU_WIDTH as int;
    let menu_height = windows_count * HOVER_ITEM_HEIGHT;
    let menu_x = min_int(sat_sub(x, menu_width / 2), sat_sub(width, menu_width));
    let menu_y = sat_sub(height - DOCK_HEIGHT, menu_height + 10);
    (menu_x, menu_y, menu_width, menu_height)
}

/// Bounds `(x, y, width, height)` of the popup listing `windows_count` windows of the icon
/// centred at `x`, on a surface `width` x `height`: centred on the icon but kept inside
/// the surface, and placed 10 pixels above the dock bar.
pub fn get_hover_menu_bounds(x: usize, width: u32, height: u32, windows_count: usize) -> (res: (usize, usize, usize, usize))
    requires
        DOCK_HEIGHT <= height,
        windows_count * HOVER_ITEM_HEIGHT + 10 <= usize::MAX,
    ensures
        (res.0 as int, res.1 as int, res.2 as int, res.3 as int)
            == spec_hover_menu_bounds(x as int, width as int, height as int, windows_count as int),
{
    let menu_width = HOVER_MENU_WIDTH as usize;
    let menu_height = windows_count * HOVER_ITEM_HEIGHT as usize;
    let left = x.saturating_sub(menu_width / 2);
    let right_limit = (width as usize).saturating_sub(menu_width);
    let menu_x = if left <= right_limit { left } else { right_limit };
    let menu_y = (height as usize - DOCK_HEIGHT as usize).saturating_sub(menu_height + 10);
    (menu_x, menu_y, menu_width, menu_height)
}

// ---------------------------------------------------------------------------
// App id normalisation
// ---------------------------------------------------------------------------

/// `a` without a trailing `_` + digits suffix (such as a process id): everything after
/// the last `_` must be numeric (an empty suffix counts), and then the `_` goes too.
pub open spec fn spec_strip_numeric_suffix(a: Seq<char>) -> Seq<char> {
    let t = rspan_len(a, not_char('_'));
    if t < a.len() && (forall|j: int| a.len() - t <= j < a.len() ==> spec_is_numeric(#[trigger] a[j])) {
        a.take(a.len() - t - 1)
    } else {
        a
    }
}

/// The app id that launching and pinning use: the numeric suffix is stripped, and any
/// Transmission variant becomes "transmission-gtk".
pub open spec fn spec_normalize_app_id(a: Seq<char>) -> Seq<char> {
    let b = spec_strip_numeric_suffix(a);
    if spec_contains(spec_to_lowercase(b), "transmission"@) {
        "transmission-gtk"@
    } else {
        b
    }
}

/// Normalises an app id before it is launched or pinned.
pub fn normalize_app_id(app_id: &Vec<char>) -> (r: Vec<char>)
    ensures
        r@ == spec_normalize_app_id(app_id@),
{
    let t = rfind_char_tail(app_id, '_');
    let n = app_id.len();
    let mut stripped = app_id.clone();
    assert(stripped@ =~= app_id@);
    if t < n {
        let mut all_numeric = true;
        let mut j = n - t;
        while j < n
            invariant
                n == app_id@.len(),
                t < n,
                n - t <= j <= n,
                all_numeric == (forall|k: int| n - t <= k < j ==> spec_is_numeric(#[trigger] app_id@[k])),
            decreases n - j,
        {
            if !is_numeric(app_id[j]) {
                all_numeric = false;
            }
            j += 1;
        }
        if all_numeric {
            let mut s: Vec<char> = Vec::new();
            let mut i: usize = 0;
            while i < n - t - 1
                invariant
                    n == app_id@.len(),
                    t < n,
                    i <= n - t - 1,
                    s@ == app_id@.take(i as int),
                decreases n - t - 1 - i,
            {
                s.push(app_id[i]);
                i += 1;
                assert(s@ =~= app_id@.take(i as int));
            }
            stripped = s;
        }
    }
    assert(stripped@ == spec_strip_numeric_suffix(app_id@));
    let lower = chars_of(to_lowercase(string_of(stripped.as_slice()).as_str()).as_str());
    let needle = chars_of("transmission");
    if contains(&lower, &needle) {
        chars_of("transmission-gtk")
    } else {
        stripped
    }
}

// ---------------------------------------------------------------------------
// State, events and actions
// ---------------------------------------------------------------------------

/// The window-list popup shown while an icon is hovered.
pub struct HoverState {
    /// Centre x of the hovered icon.
    pub x: usize,
    /// The hovered app.
    pub app_id: Option<String>,
    pub is_visible: bool,
    /// When the pointer left the popup's area (milliseconds on the caller's monotonic clock).
    pub last_leave_time: Option<u64>,
}

/// The context menu opened by a right click on an icon.
pub struct MenuState {
    pub x: usize,
    pub y: usize,
    /// Id of the window the menu acts on.
    pub target_window: Option<u32>,
    pub target_app_id: Option<String>,
    pub is_open: bool,
}

/// What the pointer logic of the dock works on.
pub struct DockState {
    pub width: u32,
    pub height: u32,
    pub pointer_x: usize,
    pub pointer_y: usize,
    pub open_windows: Vec<WindowEntry>,
    pub pinned_apps: Vec<String>,
    pub menu_state: MenuState,
    pub hover_state: HoverState,
    pub needs_redraw: bool,
    /// Time of the last pointer interaction (milliseconds on the caller's monotonic clock).
    pub last_interact_time: u64,
}

/// A pointer event, in surface coordinates (whole pixels).
pub enum PointerEvent {
    Enter { x: usize, y: usize },
    Motion { x: usize, y: usize },
    Leave,
    Press { button: u32 },
    Other,
}

/// Something the caller has to do for the dock.
pub enum DockAction {
    /// Give focus to the window with this id (where a seat is available).
    Activate(u32),
    Minimize(u32),
    Close(u32),
    /// Start the app through the launcher script.
    Launch(String),
    /// Pin the app if it is not pinned, unpin it otherwise.
    TogglePin(String),
    /// Repaint the dock.
    Draw,
    /// Flush the connection to the compositor.
    Flush,
}

pub enum ActionModel {
    Activate(u32),
    Minimize(u32),
    Close(u32),
    Launch(Seq<char>),
    TogglePin(Seq<char>),
    Draw,
    Flush,
}

impl View for DockAction {
    type V = ActionModel;

    open spec fn view(&self) -> ActionModel {
        match self {
            DockAction::Activate(h) => ActionModel::Activate(*h),
            DockAction::Minimize(h) => ActionModel::Minimize(*h),
            DockAction::Close(h) => ActionModel::Close(*h),
            DockAction::Launch(a) => ActionModel::Launch(a@),
            DockAction::TogglePin(a) => ActionModel::TogglePin(a@),
            DockAction::Draw => ActionModel::Draw,
            DockAction::Flush => ActionModel::Flush,
        }
    }
}

pub open spec fn actions_view(v: Seq<DockAction>) -> Seq<ActionModel> {
    v.map_values(|a: DockAction| a@)
}


/// The part of the dock's state that pointer frames change.
pub struct UiModel {
    pub pointer_x: usize,
    pub pointer_y: usize,
    pub hover_x: usize,
    pub hover_app: Option<Seq<char>>,
    pub hover_visible: bool,
    pub hover_leave: Option<u64>,
    pub menu_x: usize,
    pub menu_y: usize,
    pub menu_window: Option<u32>,
    pub menu_app: Option<Seq<char>>,
    pub menu_open: bool,
    pub needs_redraw: bool,
    pub last_interact: u64,
}

impl DockState {
    pub open spec fn ui(&self) -> UiModel {
        UiModel {
            pointer_x: self.pointer_x,
            pointer_y: self.pointer_y,
            hover_x: self.hover_state.x,
            hover_app: opt_view(self.hover_state.app_id),
            hover_visible: self.hover_state.is_visible,
            hover_leave: self.hover_state.last_leave_time,
            menu_x: self.menu_state.x,
            menu_y: self.menu_state.y,
            menu_window: self.menu_state.target_window,
            menu_app: opt_view(self.menu_state.target_app_id),
            menu_open: self.menu_state.is_open,
            needs_redraw: self.needs_redraw,
            last_interact: self.last_interact_time,
        }
    }
}

/// Pixel values stay far enough from the top of `usize` for the dock's arithmetic.
pub open spec fn fits(x: int) -> bool {
    x + 256 <= usize::MAX
}

pub open spec fn event_fits(e: PointerEvent) -> bool {
    match e {
        PointerEvent::Enter { x, y } => fits(x as int) && fits(y as int),
        PointerEvent::Motion { x, y } => fits(x as int) && fits(y as int),
        _ => true,
    }
}

/// What a pointer frame needs of the state and the events.
pub open spec fn frame_ok(s: DockState, events: Seq<PointerEvent>) -> bool {
    &&& ids_unique(s.open_windows@)
    &&& s.height >= DOCK_HEIGHT
    &&& fits(s.width as int)
    &&& 60 * (s.pinned_apps@.len() + s.open_windows@.len()) + 12 <= usize::MAX
    &&& fits(s.pointer_x as int)
    &&& fits(s.pointer_y as int)
    &&& fits(s.hover_state.x as int)
    &&& fits(s.menu_state.x as int)
    &&& fits(s.menu_state.y as int)
    &&& forall|i: int| 0 <= i < events.len() ==> event_fits(#[trigger] events[i])
}

// ---------------------------------------------------------------------------
// The dock as the pointer logic sees it
// ---------------------------------------------------------------------------

pub open spec fn dock_apps(s: DockState) -> Seq<Seq<char>> {
    spec_dock_apps(str_views(s.pinned_apps@), entries_model(s.open_windows@))
}

pub open spec fn dock_running(s: DockState, app: Seq<char>) -> Seq<u32> {
    running_ids(sort_by_name(entries_model(s.open_windows@)), app)
}

pub open spec fn dock_offset(s: DockState) -> int {
    start_offset(s.width as int, dock_apps(s).len() as int)
}

pub open spec fn dock_top(s: DockState) -> int {
    sat_sub(s.height as int, DOCK_HEIGHT as int)
}

pub open spec fn has_window(s: DockState, id: u32) -> bool {
    table_view(s.open_windows@).contains_key(id)
}

pub open spec fn window_active(s: DockState, id: u32) -> bool {
    has_window(s, id) && table_view(s.open_windows@)[id].is_activated
}

/// The pointer is on the row of icons: on the dock bar, or at the top of the tall
/// surface, where the bar sits while a menu is shown.
pub open spec fn over_icons(height: u32, py: usize) -> bool {
    py >= sat_sub(height as int, DOCK_HEIGHT as int) || (height == 200 && py <= 60)
}

/// The icon under `px`, if the pointer is on the row of icons.
pub open spec fn icon_under(s: DockState, u: UiModel) -> Option<int> {
    if over_icons(s.height, u.pointer_y) {
        spec_icon_at(dock_offset(s), dock_apps(s).len() as int, u.pointer_x as int)
    } else {
        None
    }
}

// ---------------------------------------------------------------------------
// One frame, step by step
// ---------------------------------------------------------------------------

/// Motion updates the pointer; leaving the surface closes popup and menu at once.
pub open spec fn motion_step(u: UiModel, changed: bool, e: PointerEvent) -> (UiModel, bool) {
    match e {
        PointerEvent::Enter { x, y } => (UiModel { pointer_x: x, pointer_y: y, ..u }, changed),
        PointerEvent::Motion { x, y } => (UiModel { pointer_x: x, pointer_y: y, ..u }, changed),
        PointerEvent::Leave => if u.hover_visible || u.menu_open {
            (UiModel { hover_visible: false, hover_app: None, menu_open: false, ..u }, true)
        } else {
            (u, changed)
        },
        _ => (u, changed),
    }
}

pub open spec fn motion_fold(u: UiModel, changed: bool, events: Seq<PointerEvent>) -> (UiModel, bool)
    decreases events.len(),
{
    if events.len() == 0 {
        (u, changed)
    } else {
        let p = motion_fold(u, changed, events.drop_last());
        motion_step(p.0, p.1, events.last())
    }
}

/// The pointer is off the surface at the end of the frame: of the events that say where
/// it is, the last is a `Leave`.
pub open spec fn pointer_gone(events: Seq<PointerEvent>) -> bool
    decreases events.len(),
{
    if events.len() == 0 {
        false
    } else {
        match events.last() {
            PointerEvent::Leave => true,
            PointerEvent::Enter { .. } => false,
            PointerEvent::Motion { .. } => false,
            _ => pointer_gone(events.drop_last()),
        }
    }
}

pub open spec fn elapsed_ms(now: u64, since: u64) -> int {
    sat_sub(now as int, since as int)
}

/// The pointer is on the popup listing the windows of the hovered app.
pub open spec fn on_popup(s: DockState, u: UiModel) -> bool {
    match u.hover_app {
        Some(a) => dock_running(s, a).len() > 0 && {
            let b = spec_hover_menu_bounds(u.hover_x as int, s.width as int, s.height as int, dock_running(s, a).len() as int);
            in_box(u.pointer_x as int, u.pointer_y as int, b.0, b.1, b.2, b.3)
        },
        None => false,
    }
}

/// The pointer has strayed from the open context menu by more than the leeway.
pub open spec fn menu_strayed(s: DockState, u: UiModel) -> bool {
    let mx = min_int(u.menu_x as int, sat_sub(s.width as int, MENU_WIDTH as int));
    let my = sat_sub(u.menu_y as int, MENU_HEIGHT as int);
    let px = u.pointer_x as int;
    let py = u.pointer_y as int;
    px < sat_sub(mx, MENU_LEEWAY as int) || px > mx + MENU_WIDTH + MENU_LEEWAY || py < sat_sub(my, MENU_LEEWAY as int)
        || py > my + MENU_HEIGHT + MENU_LEEWAY
}

/// Which app the popup shows after the pointer moved: the icon under the pointer, else
/// the current app while the pointer is on its popup, else the current app for up to
/// a second after the pointer left; the context menu closes when the pointer strays.
/// When the pointer has left the surface (`gone`) nothing is under it, so the popup
/// that leaving closed stays closed.
pub open spec fn hover_step(s: DockState, u: UiModel, changed: bool, now: u64, gone: bool) -> (UiModel, bool) {
    let apps = dock_apps(s);
    let hit = if gone { None } else { icon_under(s, u) };
    let vis1 = hit is Some;
    let app1: Option<Seq<char>> = match hit {
        Some(i) => Some(apps[i]),
        None => None,
    };
    let x1: int = match hit {
        Some(i) => slot_x(dock_offset(s), i) + BOX_SIZE / 2,
        None => u.hover_x as int,
    };
    let popup = !gone && !vis1 && u.hover_visible && on_popup(s, u);
    let vis2 = vis1 || popup;
    let app2 = if popup { u.hover_app } else { app1 };
    let x2 = if popup { u.hover_x as int } else { x1 };
    let leave: u64 = match u.hover_leave {
        Some(t) => t,
        None => now,
    };
    let grace = !vis2 && u.hover_visible && elapsed_ms(now, leave) < HOVER_GRACE_MS;
    let vis3 = vis2 || grace;
    let app3 = if grace { u.hover_app } else { app2 };
    let x3 = if grace { u.hover_x as int } else { x2 };
    let leave3: Option<u64> = if grace { Some(leave) } else { None };
    let dismiss = u.menu_open && menu_strayed(s, u);
    let u1 = UiModel { hover_leave: leave3, menu_open: u.menu_open && !dismiss, ..u };
    if vis3 != u.hover_visible || app3 != u.hover_app {
        (UiModel { hover_visible: vis3, hover_app: app3, hover_x: x3 as usize, ..u1 }, true)
    } else {
        (u1, changed || dismiss)
    }
}

/// Progress through the presses of a frame.
pub struct PressAcc {
    pub u: UiModel,
    pub changed: bool,
    pub actions: Seq<ActionModel>,
    /// A click was handled that ends the frame.
    pub done: bool,
}

/// `act` on the window `target`, provided it is still open.
pub open spec fn on_target(s: DockState, target: Option<u32>, act: ActionModel) -> Seq<ActionModel> {
    match target {
        Some(h) => if has_window(s, h) { seq![act] } else { Seq::empty() },
        None => Seq::empty(),
    }
}

/// What choosing row `item` of the context menu of `app` does.
pub open spec fn menu_item_actions(s: DockState, item: int, target: Option<u32>, app: Seq<char>) -> Seq<ActionModel> {
    let h: u32 = match target {
        Some(h) => h,
        None => 0,
    };
    if item == 0 {
        on_target(s, target, ActionModel::Activate(h))
    } else if item == 1 {
        seq![ActionModel::Launch(app)]
    } else if item == 2 {
        on_target(s, target, ActionModel::Minimize(h))
    } else if item == 3 {
        on_target(s, target, ActionModel::Close(h))
    } else if item == 4 {
        seq![ActionModel::TogglePin(spec_normalize_app_id(app))]
    } else {
        Seq::empty()
    }
}

/// Left edge and top of the open context menu.
pub open spec fn menu_origin(s: DockState, u: UiModel) -> (int, int) {
    (min_int(u.menu_x as int, sat_sub(s.width as int, MENU_WIDTH as int)), sat_sub(u.menu_y as int, MENU_HEIGHT as int))
}

/// The row of the window-list popup under the pointer, if the pointer is on it.
pub open spec fn popup_row(s: DockState, u: UiModel) -> Option<int> {
    if u.hover_visible && u.hover_app is Some {
        let ws = dock_running(s, u.hover_app->0);
        let mh = ws.len() * HOVER_ITEM_HEIGHT;
        let mx = min_int(sat_sub(u.hover_x as int, (HOVER_MENU_WIDTH / 2) as int), sat_sub(s.width as int, HOVER_MENU_WIDTH as int));
        let my = sat_sub(dock_top(s), mh + 10);
        if ws.len() > 0 && in_box(u.pointer_x as int, u.pointer_y as int, mx, my, HOVER_MENU_WIDTH as int, mh) {
            Some((u.pointer_y - my) / HOVER_ITEM_HEIGHT as int)
        } else {
            None
        }
    } else {
        None
    }
}

/// Clicking the icon of `app`: a running app's first window is minimized when it is
/// active and activated otherwise; an app without windows is launched.
pub open spec fn icon_click_actions(s: DockState, app: Seq<char>) -> Seq<ActionModel> {
    let ws = dock_running(s, app);
    if ws.len() > 0 {
        if has_window(s, ws[0]) {
            if window_active(s, ws[0]) {
                seq![ActionModel::Minimize(ws[0])]
            } else {
                seq![ActionModel::Activate(ws[0])]
            }
        } else {
            Seq::empty()
        }
    } else {
        seq![ActionModel::Launch(spec_normalize_app_id(app))]
    }
}

/// A left click: on the open context menu it runs the chosen row and ends the frame;
/// elsewhere it closes the menu.  On the popup it activates the chosen window and ends
/// the frame.  On an icon it acts as `icon_click_actions` says.
pub open spec fn left_click(s: DockState, acc: PressAcc) -> PressAcc {
    let u = acc.u;
    let o = menu_origin(s, u);
    if u.menu_open && in_box(u.pointer_x as int, u.pointer_y as int, o.0, o.1, MENU_WIDTH as int, MENU_HEIGHT as int) {
        let item = (u.pointer_y - o.1) / MENU_ITEM_HEIGHT as int;
        let acts = match u.menu_app {
            Some(app) => menu_item_actions(s, item, u.menu_window, app),
            None => Seq::empty(),
        };
        PressAcc { u: UiModel { menu_open: false, ..u }, changed: acc.changed, actions: acc.actions + acts + seq![ActionModel::Draw], done: true }
    } else {
        let u2 = UiModel { menu_open: false, ..u };
        let changed2 = acc.changed || u.menu_open;
        match popup_row(s, u2) {
            Some(row) => {
                let ws = dock_running(s, u2.hover_app->0);
                let acts = if row < ws.len() { on_target(s, Some(ws[row]), ActionModel::Activate(ws[row])) } else { Seq::empty() };
                PressAcc { u: UiModel { hover_visible: false, ..u2 }, changed: changed2, actions: acc.actions + acts + seq![ActionModel::Draw], done: true }
            },
            None => {
                let acts = match icon_under(s, u2) {
                    Some(i) => icon_click_actions(s, dock_apps(s)[i]),
                    None => Seq::empty(),
                };
                PressAcc { u: u2, changed: changed2, actions: acc.actions + acts, done: false }
            },
        }
    }
}

/// The first of `ws` that is an active window.
pub open spec fn first_active(s: DockState, ws: Seq<u32>) -> Option<u32>
    decreases ws.len(),
{
    if ws.len() == 0 {
        None
    } else if window_active(s, ws[0]) {
        Some(ws[0])
    } else {
        first_active(s, ws.drop_first())
    }
}

/// A right click on an icon opens the context menu at the pointer for that app, aimed
/// at its active window, else at its first window.
pub open spec fn right_click(s: DockState, acc: PressAcc) -> PressAcc {
    let u = acc.u;
    match icon_under(s, u) {
        Some(i) => {
            let app = dock_apps(s)[i];
            let ws = dock_running(s, app);
            let target = match first_active(s, ws) {
                Some(h) => Some(h),
                None => if ws.len() > 0 { Some(ws[0]) } else { None },
            };
            PressAcc {
                u: UiModel { menu_open: true, menu_x: u.pointer_x, menu_y: u.pointer_y, menu_app: Some(app), menu_window: target, ..u },
                changed: true,
                ..acc
            }
        },
        None => acc,
    }
}

pub open spec fn press_step(s: DockState, acc: PressAcc, e: PointerEvent) -> PressAcc {
    if acc.done {
        acc
    } else {
        match e {
            PointerEvent::Press { button } => if button == BUTTON_LEFT {
                left_click(s, acc)
            } else if button == BUTTON_RIGHT {
                right_click(s, acc)
            } else {
                acc
            },
            _ => acc,
        }
    }
}

pub open spec fn press_fold(s: DockState, acc: PressAcc, events: Seq<PointerEvent>) -> PressAcc
    decreases events.len(),
{
    if events.len() == 0 {
        acc
    } else {
        press_step(s, press_fold(s, acc, events.drop_last()), events.last())
    }
}

/// A whole frame of pointer events: the next state of what pointer frames change, and
/// the actions for the caller, in order.  Nothing happens for an empty frame.
pub open spec fn spec_pointer_frame(s: DockState, events: Seq<PointerEvent>, now: u64) -> (UiModel, Seq<ActionModel>) {
    if events.len() == 0 {
        (s.ui(), Seq::empty())
    } else {
        let u0 = UiModel { last_interact: now, ..s.ui() };
        let m = motion_fold(u0, false, events);
        let h = hover_step(s, m.0, m.1, now, pointer_gone(events));
        let acc = press_fold(s, PressAcc { u: h.0, changed: h.1, actions: Seq::empty(), done: false }, events);
        if acc.done {
            (acc.u, acc.actions)
        } else if acc.u.needs_redraw || acc.changed {
            (UiModel { needs_redraw: false, ..acc.u }, acc.actions + seq![ActionModel::Draw, ActionModel::Flush])
        } else {
            (acc.u, acc.actions)
        }
    }
}


/// The parts of the state that pointer frames leave alone are equal.
pub open spec fn same_dock(a: DockState, b: DockState) -> bool {
    &&& a.width == b.width
    &&& a.height == b.height
    &&& a.open_windows == b.open_windows
    &&& a.pinned_apps == b.pinned_apps
}

/// Coordinates held by the state fit the dock's arithmetic.
pub open spec fn coords_fit(s: DockState) -> bool {
    &&& fits(s.pointer_x as int)
    &&& fits(s.pointer_y as int)
    &&& fits(s.hover_state.x as int)
    &&& fits(s.menu_state.x as int)
    &&& fits(s.menu_state.y as int)
}

/// Numbers of windows and apps leave room for the dock's arithmetic.
pub open spec fn counts_fit(s: DockState) -> bool {
    &&& ids_unique(s.open_windows@)
    &&& s.height >= DOCK_HEIGHT
    &&& fits(s.width as int)
    &&& 60 * (s.pinned_apps@.len() + s.open_windows@.len()) + 12 <= usize::MAX
}

proof fn lemma_running_len(s: DockState, app: Seq<char>)
    ensures
        dock_running(s, app).len() <= s.open_windows@.len(),
{
    let so = sort_by_name(entries_model(s.open_windows@));
    lemma_running_ids_len(so, app);
    crate::layout::lemma_sort_len(entries_model(s.open_windows@));
}

proof fn lemma_running_ids_len(so: Seq<(u32, crate::windows::WindowModel)>, app: Seq<char>)
    ensures
        running_ids(so, app).len() <= so.len(),
    decreases so.len(),
{
    if so.len() > 0 {
        lemma_running_ids_len(so.drop_last(), app);
    }
}

fn opt_chars(o: &Option<String>) -> (r: Option<Vec<char>>)
    ensures
        match r {
            Some(v) => opt_view(*o) == Some(v@),
            None => o is None,
        },
{
    match o {
        Some(a) => Some(chars_of(a.as_str())),
        None => None,
    }
}

/// Whether the window with id `h` is open, and whether it is active.
fn window_status(ws: &Vec<WindowEntry>, h: u32) -> (r: (bool, bool))
    requires
        ids_unique(ws@),
    ensures
        r.0 == table_view(ws@).contains_key(h),
        r.1 == (table_view(ws@).contains_key(h) && table_view(ws@)[h].is_activated),
{
    proof { lemma_table_view(ws@); }
    match find_window(ws, h) {
        Some(k) => {
            assert(table_view(ws@)[ws@[k as int].id] == ws@[k as int].info@);
            (true, ws[k].info.is_activated)
        },
        None => (false, false),
    }
}

impl DockState {
    fn apply_motion(&mut self, events: &Vec<PointerEvent>) -> (r: (bool, bool))
        requires
            coords_fit(*old(self)),
            forall|i: int| 0 <= i < events@.len() ==> event_fits(#[trigger] events@[i]),
        ensures
            (final(self).ui(), r.0) == motion_fold(old(self).ui(), false, events@),
            r.1 == pointer_gone(events@),
            same_dock(*old(self), *final(self)),
            coords_fit(*final(self)),
    {
        let mut changed = false;
        let mut gone = false;
        let mut i: usize = 0;
        while i < events.len()
            invariant
                i <= events@.len(),
                gone == pointer_gone(events@.take(i as int)),
                same_dock(*old(self), *self),
                coords_fit(*self),
                self.hover_state.x == old(self).hover_state.x,
                self.menu_state.x == old(self).menu_state.x,
                self.menu_state.y == old(self).menu_state.y,
                forall|k: int| 0 <= k < events@.len() ==> event_fits(#[trigger] events@[k]),
                (self.ui(), changed) == motion_fold(old(self).ui(), false, events@.take(i as int)),
            decreases events@.len() - i,
        {
            assert(event_fits(events@[i as int]));
            match &events[i] {
                PointerEvent::Enter { x, y } => {
                    self.pointer_x = *x;
                    self.pointer_y = *y;
                    gone = false;
                },
                PointerEvent::Motion { x, y } => {
                    self.pointer_x = *x;
                    self.pointer_y = *y;
                    gone = false;
                },
                PointerEvent::Leave => {
                    gone = true;
                    if self.hover_state.is_visible || self.menu_state.is_open {
                        self.hover_state.is_visible = false;
                        self.hover_state.app_id = None;
                        self.menu_state.is_open = false;
                        changed = true;
                    }
                },
                _ => {},
            }
            proof {
                assert(events@.take(i + 1).drop_last() =~= events@.take(i as int));
                assert(events@.take(i + 1).last() == events@[i as int]);
            }
            i += 1;
        }
        assert(events@.take(events@.len() as int) =~= events@);
        (changed, gone)
    }

    #[verifier::rlimit(40)]
    fn apply_hover(&mut self, Ghost(s0): Ghost<DockState>, lay: &DockLayout, changed: bool, now: u64, gone: bool) -> (changed_out: bool)
        requires
            same_dock(s0, *old(self)),
            counts_fit(s0),
            coords_fit(*old(self)),
            layout_of(*lay, s0.width, s0.height, s0.pinned_apps@, s0.open_windows@),
            lay.apps@.len() <= s0.pinned_apps@.len() + s0.open_windows@.len(),
        ensures
            (final(self).ui(), changed_out) == hover_step(s0, old(self).ui(), changed, now, gone),
            same_dock(s0, *final(self)),
            coords_fit(*final(self)),
    {
        let ghost u = self.ui();
        let px = self.pointer_x;
        let py = self.pointer_y;
        let n = lay.apps.len();
        assert(60 * n + 12 <= usize::MAX) by (nonlinear_arith)
            requires
                n <= s0.pinned_apps@.len() + s0.open_windows@.len(),
                60 * (s0.pinned_apps@.len() + s0.open_windows@.len()) + 12 <= usize::MAX,
        ;
        proof {
            crate::layout::lemma_offset_bound(s0.width as int, n as int);
        }
        let over = py >= lay.dock_top || (self.height == 200 && py <= 60);
        assert(over == over_icons(s0.height, py));
        let mut should = false;
        let mut new_app: Option<Vec<char>> = None;
        let mut new_x = self.hover_state.x;
        if over && !gone {
            match icon_at(lay.offset, n, px) {
                Some(i) => {
                    should = true;
                    assert(lay.offset + 12 + i * 60 + 48 <= lay.offset + 60 * n) by (nonlinear_arith)
                        requires
                            i < n,
                    ;
                    new_x = lay.offset + SPACING_USIZE + i * 60 + 24;
                    new_app = Some(lay.apps[i].clone());
                    assert(new_app->0@ == views(lay.apps@)[i as int]);
                },
                None => {},
            }
        }
        let ghost hit = if gone { None } else { icon_under(s0, u) };
        assert(should == hit is Some);
        let hover_chars = opt_chars(&self.hover_state.app_id);
        if !gone && !should && self.hover_state.is_visible {
            match &hover_chars {
                Some(av) => {
                    let ws = running_windows(lay, av);
                    proof {
                        lemma_running_ids(*lay, s0.width, s0.height, s0.pinned_apps@, s0.open_windows@, av@);
                        lemma_running_len(s0, av@);
                    }
                    if ws.len() > 0 {
                        let b = get_hover_menu_bounds(self.hover_state.x, self.width, self.height, ws.len());
                        if px >= b.0 && px <= b.0 + b.2 && py >= b.1 && py <= b.1 + b.3 {
                            should = true;
                            new_app = Some(av.clone());
                            new_x = self.hover_state.x;
                        }
                    }
                },
                None => {},
            }
        }
        if !should && self.hover_state.is_visible {
            if self.hover_state.last_leave_time.is_none() {
                self.hover_state.last_leave_time = Some(now);
            }
            let leave = match self.hover_state.last_leave_time {
                Some(t) => t,
                None => now,
            };
            if now.saturating_sub(leave) < HOVER_GRACE_MS {
                should = true;
                new_app = match &hover_chars {
                    Some(av) => Some(av.clone()),
                    None => None,
                };
                new_x = self.hover_state.x;
            } else {
                self.hover_state.last_leave_time = None;
            }
        } else {
            self.hover_state.last_leave_time = None;
        }
        let mut changed_out = changed;
        if self.menu_state.is_open {
            let mx = if self.menu_state.x <= (self.width as usize).saturating_sub(MENU_WIDTH as usize) {
                self.menu_state.x
            } else {
                (self.width as usize).saturating_sub(MENU_WIDTH as usize)
            };
            let my = self.menu_state.y.saturating_sub(MENU_HEIGHT as usize);
            if px < mx.saturating_sub(MENU_LEEWAY) || px > mx + MENU_WIDTH as usize + MENU_LEEWAY
                || py < my.saturating_sub(MENU_LEEWAY) || py > my + MENU_HEIGHT as usize + MENU_LEEWAY {
                self.menu_state.is_open = false;
                changed_out = true;
            }
        }
        let same_app = match (&new_app, &hover_chars) {
            (Some(a), Some(b)) => chars_eq(a, b),
            (None, None) => true,
            _ => false,
        };
        if should != self.hover_state.is_visible || !same_app {
            self.hover_state.is_visible = should;
            self.hover_state.app_id = match &new_app {
                Some(a) => Some(string_of(a.as_slice())),
                None => None,
            };
            self.hover_state.x = new_x;
            changed_out = true;
        }
        changed_out
    }

    /// Runs the chosen row of the context menu for `app`.
    fn run_menu_item(&self, Ghost(s0): Ghost<DockState>, item: usize, app: &Vec<char>, actions: &mut Vec<DockAction>)
        requires
            same_dock(s0, *self),
            counts_fit(s0),
        ensures
            actions_view(final(actions)@) == actions_view(old(actions)@) + menu_item_actions(s0, item as int, self.menu_state.target_window, app@),
    {
        let ghost before = actions_view(actions@);
        let present = match self.menu_state.target_window {
            Some(h) => window_status(&self.open_windows, h).0,
            None => false,
        };
        let h: u32 = match self.menu_state.target_window {
            Some(h) => h,
            None => 0,
        };
        if item == 0 {
            if present {
                actions.push(DockAction::Activate(h));
            }
        } else if item == 1 {
            actions.push(DockAction::Launch(string_of(app.as_slice())));
        } else if item == 2 {
            if present {
                actions.push(DockAction::Minimize(h));
            }
        } else if item == 3 {
            if present {
                actions.push(DockAction::Close(h));
            }
        } else if item == 4 {
            let norm = normalize_app_id(app);
            actions.push(DockAction::TogglePin(string_of(norm.as_slice())));
        }
        assert(actions_view(actions@) =~= before + menu_item_actions(s0, item as int, self.menu_state.target_window, app@));
    }

    /// A left click.  Returns whether the frame changed the layer and whether it ends.
    fn left_click_exec(&mut self, Ghost(s0): Ghost<DockState>, lay: &DockLayout, changed: bool, actions: &mut Vec<DockAction>) -> (r: (bool, bool))
        requires
            same_dock(s0, *old(self)),
            counts_fit(s0),
            coords_fit(*old(self)),
            layout_of(*lay, s0.width, s0.height, s0.pinned_apps@, s0.open_windows@),
            lay.apps@.len() <= s0.pinned_apps@.len() + s0.open_windows@.len(),
        ensures
            ({
                let acc = left_click(s0, PressAcc { u: old(self).ui(), changed, actions: actions_view(old(actions)@), done: false });
                &&& final(self).ui() == acc.u
                &&& r.0 == acc.changed
                &&& r.1 == acc.done
                &&& actions_view(final(actions)@) == acc.actions
            }),
            same_dock(s0, *final(self)),
            coords_fit(*final(self)),
    {
        let ghost u = self.ui();
        let ghost acts0 = actions_view(actions@);
        let px = self.pointer_x;
        let py = self.pointer_y;
        let mut changed = changed;
        if self.menu_state.is_open {
            let mx = if self.menu_state.x <= (self.width as usize).saturating_sub(MENU_WIDTH as usize) {
                self.menu_state.x
            } else {
                (self.width as usize).saturating_sub(MENU_WIDTH as usize)
            };
            let my = self.menu_state.y.saturating_sub(MENU_HEIGHT as usize);
            if px >= mx && px <= mx + MENU_WIDTH as usize && py >= my && py <= my + MENU_HEIGHT as usize {
                let item = (py - my) / MENU_ITEM_HEIGHT as usize;
                match opt_chars(&self.menu_state.target_app_id) {
                    Some(app) => {
                        self.run_menu_item(Ghost(s0), item, &app, actions);
                    },
                    None => {},
                }
                self.menu_state.is_open = false;
                let ghost mid = actions_view(actions@);
                actions.push(DockAction::Draw);
                assert(actions_view(actions@) =~= mid + seq![ActionModel::Draw]);
                return (changed, true);
            } else {
                self.menu_state.is_open = false;
                changed = true;
            }
        }
        let ghost u2 = self.ui();
        assert(u2 == UiModel { menu_open: false, ..u });
        if self.hover_state.is_visible {
            match opt_chars(&self.hover_state.app_id) {
                Some(av) => {
                    let ws = running_windows(lay, &av);
                    proof {
                        lemma_running_ids(*lay, s0.width, s0.height, s0.pinned_apps@, s0.open_windows@, av@);
                        lemma_running_len(s0, av@);
                    }
                    if ws.len() > 0 {
                        let mh = ws.len() * HOVER_ITEM_HEIGHT as usize;
                        let left = self.hover_state.x.saturating_sub(HOVER_MENU_WIDTH as usize / 2);
                        let right = (self.width as usize).saturating_sub(HOVER_MENU_WIDTH as usize);
                        let mx = if left <= right { left } else { right };
                        let my = lay.dock_top.saturating_sub(mh + 10);
                        if px >= mx && px <= mx + HOVER_MENU_WIDTH as usize && py >= my && py <= my + mh {
                            let idx = (py - my) / HOVER_ITEM_HEIGHT as usize;
                            let ghost mid0 = actions_view(actions@);
                            if idx < ws.len() {
                                if window_status(&self.open_windows, ws[idx]).0 {
                                    actions.push(DockAction::Activate(ws[idx]));
                                }
                            }
                            self.hover_state.is_visible = false;
                            let ghost mid = actions_view(actions@);
                            actions.push(DockAction::Draw);
                            assert(actions_view(actions@) =~= mid + seq![ActionModel::Draw]);
                            proof {
                                let row = (py - my) / HOVER_ITEM_HEIGHT as int;
                                assert(popup_row(s0, u2) == Some(row));
                                if row < ws@.len() {
                                    assert(mid =~= mid0 + on_target(s0, Some(ws@[row]), ActionModel::Activate(ws@[row])));
                                } else {
                                    assert(mid =~= mid0);
                                }
                            }
                            return (changed, true);
                        }
                    }
                },
                None => {},
            }
        }
        assert(popup_row(s0, u2) is None);
        let n = lay.apps.len();
        assert(60 * n + 12 <= usize::MAX) by (nonlinear_arith)
            requires
                n <= s0.pinned_apps@.len() + s0.open_windows@.len(),
                60 * (s0.pinned_apps@.len() + s0.open_windows@.len()) + 12 <= usize::MAX,
        ;
        proof {
            crate::layout::lemma_offset_bound(s0.width as int, n as int);
        }
        let over = py >= lay.dock_top || (self.height == 200 && py <= 60);
        if over {
            match icon_at(lay.offset, n, px) {
                Some(i) => {
                    let app = &lay.apps[i];
                    assert(app@ == dock_apps(s0)[i as int]);
                    let ws = running_windows(lay, app);
                    proof {
                        lemma_running_ids(*lay, s0.width, s0.height, s0.pinned_apps@, s0.open_windows@, app@);
                    }
                    let ghost mid0 = actions_view(actions@);
                    if ws.len() > 0 {
                        let st = window_status(&self.open_windows, ws[0]);
                        if st.0 {
                            if st.1 {
                                actions.push(DockAction::Minimize(ws[0]));
                            } else {
                                actions.push(DockAction::Activate(ws[0]));
                            }
                        }
                    } else {
                        let norm = normalize_app_id(app);
                        actions.push(DockAction::Launch(string_of(norm.as_slice())));
                    }
                    assert(actions_view(actions@) =~= mid0 + icon_click_actions(s0, app@));
                },
                None => {},
            }
        }
        (changed, false)
    }

    /// The first active window among `ws`, else the first of them.
    fn menu_target(&self, Ghost(s0): Ghost<DockState>, ws: &Vec<u32>) -> (r: Option<u32>)
        requires
            same_dock(s0, *self),
            counts_fit(s0),
        ensures
            r == (match first_active(s0, ws@) {
                Some(h) => Some(h),
                None => if ws@.len() > 0 { Some(ws@[0]) } else { None },
            }),
    {
        let mut k: usize = 0;
        assert(ws@.skip(0) =~= ws@);
        while k < ws.len()
            invariant
                k <= ws@.len(),
                same_dock(s0, *self),
                counts_fit(s0),
                first_active(s0, ws@) == first_active(s0, ws@.skip(k as int)),
            decreases ws@.len() - k,
        {
            proof {
                assert(ws@.skip(k as int)[0] == ws@[k as int]);
                assert(ws@.skip(k as int).drop_first() =~= ws@.skip(k + 1));
            }
            if window_status(&self.open_windows, ws[k]).1 {
                return Some(ws[k]);
            }
            k += 1;
        }
        assert(ws@.skip(k as int) =~= Seq::<u32>::empty());
        if ws.len() > 0 {
            Some(ws[0])
        } else {
            None
        }
    }

    /// A right click.  Returns whether the frame changed the layer.
    fn right_click_exec(&mut self, Ghost(s0): Ghost<DockState>, lay: &DockLayout, changed: bool) -> (r: bool)
        requires
            same_dock(s0, *old(self)),
            counts_fit(s0),
            coords_fit(*old(self)),
            layout_of(*lay, s0.width, s0.height, s0.pinned_apps@, s0.open_windows@),
            lay.apps@.len() <= s0.pinned_apps@.len() + s0.open_windows@.len(),
        ensures
            ({
                let acc = right_click(s0, PressAcc { u: old(self).ui(), changed, actions: Seq::empty(), done: false });
                &&& final(self).ui() == acc.u
                &&& r == acc.changed
            }),
            same_dock(s0, *final(self)),
            coords_fit(*final(self)),
    {
        let px = self.pointer_x;
        let py = self.pointer_y;
        let n = lay.apps.len();
        assert(60 * n + 12 <= usize::MAX) by (nonlinear_arith)
            requires
                n <= s0.pinned_apps@.len() + s0.open_windows@.len(),
                60 * (s0.pinned_apps@.len() + s0.open_windows@.len()) + 12 <= usize::MAX,
        ;
        proof {
            crate::layout::lemma_offset_bound(s0.width as int, n as int);
        }
        let over = py >= lay.dock_top || (self.height == 200 && py <= 60);
        if over {
            match icon_at(lay.offset, n, px) {
                Some(i) => {
                    let app = &lay.apps[i];
                    let ws = running_windows(lay, app);
                    proof {
                        lemma_running_ids(*lay, s0.width, s0.height, s0.pinned_apps@, s0.open_windows@, app@);
                    }
                    let target = self.menu_target(Ghost(s0), &ws);
                    self.menu_state.is_open = true;
                    self.menu_state.x = px;
                    self.menu_state.y = py;
                    self.menu_state.target_app_id = Some(string_of(app.as_slice()));
                    self.menu_state.target_window = target;
                    return true;
                },
                None => {},
            }
        }
        changed
    }

    fn apply_presses(&mut self, Ghost(s0): Ghost<DockState>, lay: &DockLayout, changed: bool, events: &Vec<PointerEvent>) -> (r: (bool, bool, Vec<DockAction>))
        requires
            same_dock(s0, *old(self)),
            counts_fit(s0),
            coords_fit(*old(self)),
            layout_of(*lay, s0.width, s0.height, s0.pinned_apps@, s0.open_windows@),
            lay.apps@.len() <= s0.pinned_apps@.len() + s0.open_windows@.len(),
        ensures
            ({
                let acc = press_fold(s0, PressAcc { u: old(self).ui(), changed, actions: Seq::empty(), done: false }, events@);
                &&& final(self).ui() == acc.u
                &&& r.0 == acc.changed
                &&& r.1 == acc.done
                &&& actions_view(r.2@) == acc.actions
            }),
            same_dock(s0, *final(self)),
            coords_fit(*final(self)),
    {
        let ghost init = PressAcc { u: self.ui(), changed, actions: Seq::empty(), done: false };
        let mut changed = changed;
        let mut done = false;
        let mut actions: Vec<DockAction> = Vec::new();
        let mut i: usize = 0;
        assert(events@.take(0) =~= Seq::<PointerEvent>::empty());
        assert(actions_view(actions@) =~= Seq::<ActionModel>::empty());
        while i < events.len()
            invariant
                i <= events@.len(),
                same_dock(s0, *self),
                counts_fit(s0),
                coords_fit(*self),
                layout_of(*lay, s0.width, s0.height, s0.pinned_apps@, s0.open_windows@),
                lay.apps@.len() <= s0.pinned_apps@.len() + s0.open_windows@.len(),
                press_fold(s0, init, events@.take(i as int)) == (PressAcc { u: self.ui(), changed, actions: actions_view(actions@), done }),
            decreases events@.len() - i,
        {
            proof {
                assert(events@.take(i + 1).drop_last() =~= events@.take(i as int));
                assert(events@.take(i + 1).last() == events@[i as int]);
            }
            if !done {
                match &events[i] {
                    PointerEvent::Press { button } => {
                        if *button == BUTTON_LEFT {
                            let r = self.left_click_exec(Ghost(s0), lay, changed, &mut actions);
                            changed = r.0;
                            done = r.1;
                        } else if *button == BUTTON_RIGHT {
                            changed = self.right_click_exec(Ghost(s0), lay, changed);
                        }
                    },
                    _ => {},
                }
            }
            i += 1;
        }
        assert(events@.take(events@.len() as int) =~= events@);
        (changed, done, actions)
    }

    /// Handles one frame of pointer events at time `now_ms` (milliseconds on a monotonic
    /// clock): follows the pointer, shows or hides the window-list popup, closes the
    /// context menu when the pointer strays from it, and handles clicks.  The state
    /// changes and the returned actions are those `spec_pointer_frame` describes;
    /// windows, pins and the surface size are left alone.
    pub fn pointer_frame(&mut self, events: &Vec<PointerEvent>, now_ms: u64) -> (actions: Vec<DockAction>)
        requires
            frame_ok(*old(self), events@),
        ensures
            final(self).ui() == spec_pointer_frame(*old(self), events@, now_ms).0,
            actions_view(actions@) == spec_pointer_frame(*old(self), events@, now_ms).1,
            same_dock(*old(self), *final(self)),
            frame_ok(*final(self), Seq::empty()),
    {
        if events.len() == 0 {
            let v: Vec<DockAction> = Vec::new();
            assert(actions_view(v@) =~= Seq::<ActionModel>::empty());
            return v;
        }
        let ghost s0 = *self;
        self.last_interact_time = now_ms;
        let (c1, gone) = self.apply_motion(events);
        let lay = compute_layout(self.width, self.height, &self.pinned_apps, &self.open_windows);
        let c2 = self.apply_hover(Ghost(s0), &lay, c1, now_ms, gone);
        let r = self.apply_presses(Ghost(s0), &lay, c2, events);
        let mut actions = r.2;
        if r.1 {
            return actions;
        }
        if r.0 {
            self.needs_redraw = true;
        }
        if self.needs_redraw {
            let ghost before = actions_view(actions@);
            actions.push(DockAction::Draw);
            self.needs_redraw = false;
            actions.push(DockAction::Flush);
            assert(actions_view(actions@) =~= before + seq![ActionModel::Draw, ActionModel::Flush]);
        }
        actions
    }
}

// ---------------------------------------------------------------------------
// Laws of pointer frames
// ---------------------------------------------------------------------------

/// A frame without events changes nothing and asks for nothing.
pub proof fn law_empty_frame(s: DockState, now: u64)
    ensures
        spec_pointer_frame(s, Seq::empty(), now) == (s.ui(), Seq::<ActionModel>::empty()),
{
}

/// Without presses, the press pass leaves everything as it was.
proof fn lemma_press_fold_idle(s: DockState, acc: PressAcc, events: Seq<PointerEvent>)
    requires
        forall|i: int| 0 <= i < events.len() ==> !(#[trigger] events[i] is Press),
    ensures
        press_fold(s, acc, events) == acc,
    decreases events.len(),
{
    if events.len() > 0 {
        let d = events.drop_last();
        assert forall|i: int| 0 <= i < d.len() implies !(#[trigger] d[i] is Press) by {
            assert(d[i] == events[i]);
        }
        lemma_press_fold_idle(s, acc, d);
        assert(!(events[events.len() - 1] is Press));
    }
}

/// A frame without button presses asks at most for a repaint: its actions are none,
/// or a redraw followed by a flush.
pub proof fn law_no_press_only_repaints(s: DockState, events: Seq<PointerEvent>, now: u64)
    requires
        forall|i: int| 0 <= i < events.len() ==> !(#[trigger] events[i] is Press),
    ensures
        spec_pointer_frame(s, events, now).1 == Seq::<ActionModel>::empty()
            || spec_pointer_frame(s, events, now).1 == seq![ActionModel::Draw, ActionModel::Flush],
{
    if events.len() > 0 {
        let u0 = UiModel { last_interact: now, ..s.ui() };
        let m = motion_fold(u0, false, events);
    let h = hover_step(s, m.0, m.1, now, pointer_gone(events));
        let acc0 = PressAcc { u: h.0, changed: h.1, actions: Seq::empty(), done: false };
        lemma_press_fold_idle(s, acc0, events);
        assert(Seq::<ActionModel>::empty() + seq![ActionModel::Draw, ActionModel::Flush] =~= seq![ActionModel::Draw, ActionModel::Flush]);
    }
}

/// Once the pointer leaves the surface, the popup and the context menu are closed and
/// no app is hovered, wherever the pointer was last seen.
pub proof fn law_leave_clears_overlays(s: DockState, now: u64)
    ensures
        ({
            let u = spec_pointer_frame(s, seq![PointerEvent::Leave], now).0;
            &&& !u.hover_visible
            &&& u.hover_app is None
            &&& !u.menu_open
        }),
{
    let events = seq![PointerEvent::Leave];
    let u0 = UiModel { last_interact: now, ..s.ui() };
    assert(events.drop_last() =~= Seq::<PointerEvent>::empty());
    let m = motion_fold(u0, false, events);
    assert(!m.0.menu_open && !m.0.hover_visible);
    assert(pointer_gone(events));
    let h = hover_step(s, m.0, m.1, now, pointer_gone(events));
    assert(!h.0.menu_open && !h.0.hover_visible && h.0.hover_app is None);
    let acc0 = PressAcc { u: h.0, changed: h.1, actions: Seq::empty(), done: false };
    lemma_press_fold_idle(s, acc0, events);
}

/// A right click over an icon opens the context menu at the pointer for that icon's app.
pub proof fn law_right_click_opens_menu(s: DockState, now: u64, i: int)
    requires
        icon_under(s, s.ui()) == Some(i),
    ensures
        ({
            let u = spec_pointer_frame(s, seq![PointerEvent::Press { button: BUTTON_RIGHT }], now).0;
            &&& u.menu_open
            &&& u.menu_app == Some(dock_apps(s)[i])
            &&& u.menu_x == s.pointer_x
            &&& u.menu_y == s.pointer_y
        }),
{
    let events = seq![PointerEvent::Press { button: BUTTON_RIGHT }];
    let u0 = UiModel { last_interact: now, ..s.ui() };
    assert(events.drop_last() =~= Seq::<PointerEvent>::empty());
    assert(motion_fold(u0, false, events.drop_last()) == (u0, false));
    let m = motion_fold(u0, false, events);
    assert(m.0 == u0);
    assert(!pointer_gone(events.drop_last()));
    assert(!pointer_gone(events));
    let h = hover_step(s, m.0, m.1, now, pointer_gone(events));
    assert(h.0.pointer_x == s.pointer_x && h.0.pointer_y == s.pointer_y);
    assert(icon_under(s, h.0) == icon_under(s, s.ui()));
    let acc0 = PressAcc { u: h.0, changed: h.1, actions: Seq::empty(), done: false };
    assert(press_fold(s, acc0, events) == press_step(s, press_fold(s, acc0, events.drop_last()), events.last()));
}

/// A left click on the icon of an app without windows, with no context menu open,
/// launches the app (under its normalized id) before anything else.
pub proof fn law_click_idle_icon_launches(s: DockState, now: u64, i: int)
    requires
        !s.menu_state.is_open,
        icon_under(s, s.ui()) == Some(i),
        dock_running(s, dock_apps(s)[i]).len() == 0,
    ensures
        spec_pointer_frame(s, seq![PointerEvent::Press { button: BUTTON_LEFT }], now).1.len() > 0,
        spec_pointer_frame(s, seq![PointerEvent::Press { button: BUTTON_LEFT }], now).1[0]
            == ActionModel::Launch(spec_normalize_app_id(dock_apps(s)[i])),
{
    let events = seq![PointerEvent::Press { button: BUTTON_LEFT }];
    let u0 = UiModel { last_interact: now, ..s.ui() };
    assert(events.drop_last() =~= Seq::<PointerEvent>::empty());
    assert(motion_fold(u0, false, events.drop_last()) == (u0, false));
    let m = motion_fold(u0, false, events);
    assert(m.0 == u0);
    assert(!pointer_gone(events.drop_last()));
    assert(!pointer_gone(events));
    let h = hover_step(s, m.0, m.1, now, pointer_gone(events));
    assert(icon_under(s, h.0) == icon_under(s, s.ui()));
    assert(!h.0.menu_open);
    assert(h.0.hover_app == Some(dock_apps(s)[i]));
    let acc0 = PressAcc { u: h.0, changed: h.1, actions: Seq::empty(), done: false };
    let u2 = UiModel { menu_open: false, ..h.0 };
    assert(popup_row(s, u2) is None);
    assert(icon_under(s, u2) == Some(i));
    assert(press_fold(s, acc0, events) == press_step(s, press_fold(s, acc0, events.drop_last()), events.last()));
    let acc = press_fold(s, acc0, events);
    assert(acc.actions =~= seq![ActionModel::Launch(spec_normalize_app_id(dock_apps(s)[i]))]);
}

/// After the pointer moves off the icons and off the popup, the popup stays for a
/// second after the pointer left it and is gone after that.
pub proof fn law_popup_grace(s: DockState, now: u64, x: usize, y: usize)
    requires
        s.hover_state.is_visible,
        ({
            let u = UiModel { last_interact: now, pointer_x: x, pointer_y: y, ..s.ui() };
            icon_under(s, u) is None && !on_popup(s, u)
        }),
    ensures
        ({
            let since: u64 = match s.hover_state.last_leave_time {
                Some(t) => t,
                None => now,
            };
            spec_pointer_frame(s, seq![PointerEvent::Motion { x, y }], now).0.hover_visible == (elapsed_ms(now, since) < HOVER_GRACE_MS)
        }),
{
    let events = seq![PointerEvent::Motion { x, y }];
    let u0 = UiModel { last_interact: now, ..s.ui() };
    assert(events.drop_last() =~= Seq::<PointerEvent>::empty());
    assert(motion_fold(u0, false, events.drop_last()) == (u0, false));
    let m = motion_fold(u0, false, events);
    assert(m.0 == UiModel { last_interact: now, pointer_x: x, pointer_y: y, ..s.ui() });
    assert(!pointer_gone(events.drop_last()));
    assert(!pointer_gone(events));
    let h = hover_step(s, m.0, m.1, now, pointer_gone(events));
    let acc0 = PressAcc { u: h.0, changed: h.1, actions: Seq::empty(), done: false };
    lemma_press_fold_idle(s, acc0, events);
}

/// A left click on row `r` of the open context menu runs that row on the menu's window
/// and app, then asks for a repaint: row 0 (Focus) activates the window, row 1 (Open)
/// launches the app, row 2 (Minimize) minimizes the window, row 3 (Close) closes it and
/// row 4 toggles the pin of the app's normalized id.
pub proof fn law_context_menu_rows(s: DockState, now: u64, r: int, h: u32, app: Seq<char>)
    requires
        s.menu_state.is_open,
        opt_view(s.menu_state.target_app_id) == Some(app),
        s.menu_state.target_window == Some(h),
        has_window(s, h),
        0 <= r < MENU_ITEM_COUNT,
        ({
            let o = menu_origin(s, s.ui());
            &&& o.0 <= s.pointer_x <= o.0 + MENU_WIDTH
            &&& o.1 + MENU_ITEM_HEIGHT * r <= s.pointer_y < o.1 + MENU_ITEM_HEIGHT * (r + 1)
        }),
    ensures
        ({
            let acts = spec_pointer_frame(s, seq![PointerEvent::Press { button: BUTTON_LEFT }], now).1;
            &&& r == 0 ==> acts == seq![ActionModel::Activate(h), ActionModel::Draw]
            &&& r == 1 ==> acts == seq![ActionModel::Launch(app), ActionModel::Draw]
            &&& r == 2 ==> acts == seq![ActionModel::Minimize(h), ActionModel::Draw]
            &&& r == 3 ==> acts == seq![ActionModel::Close(h), ActionModel::Draw]
            &&& r == 4 ==> acts == seq![ActionModel::TogglePin(spec_normalize_app_id(app)), ActionModel::Draw]
        }),
{
    let events = seq![PointerEvent::Press { button: BUTTON_LEFT }];
    let u0 = UiModel { last_interact: now, ..s.ui() };
    assert(MENU_ITEM_HEIGHT == 30 && MENU_ITEM_COUNT == 5 && MENU_HEIGHT == 150);
    assert(s.pointer_y < menu_origin(s, s.ui()).1 + MENU_HEIGHT) by (nonlinear_arith)
        requires
            s.pointer_y < menu_origin(s, s.ui()).1 + 30 * (r + 1),
            r < 5,
            MENU_HEIGHT == 150,
    ;
    assert(events.drop_last() =~= Seq::<PointerEvent>::empty());
    assert(motion_fold(u0, false, events.drop_last()) == (u0, false));
    let m = motion_fold(u0, false, events);
    assert(m.0 == u0);
    assert(!pointer_gone(events.drop_last()));
    assert(!pointer_gone(events));
    assert(!menu_strayed(s, u0));
    let hs = hover_step(s, m.0, m.1, now, pointer_gone(events));
    assert(hs.0.menu_open && hs.0.pointer_x == s.pointer_x && hs.0.pointer_y == s.pointer_y);
    assert(hs.0.menu_app == Some(app) && hs.0.menu_window == Some(h));
    assert(menu_origin(s, hs.0) == menu_origin(s, s.ui()));
    let o = menu_origin(s, hs.0);
    assert((s.pointer_y - o.1) / (MENU_ITEM_HEIGHT as int) == r);
    let acc0 = PressAcc { u: hs.0, changed: hs.1, actions: Seq::empty(), done: false };
    assert(press_fold(s, acc0, events) == press_step(s, press_fold(s, acc0, events.drop_last()), events.last()));
    let acc = press_fold(s, acc0, events);
    assert(acc.done);
    let acts = menu_item_actions(s, r, Some(h), app);
    assert(acc.actions =~= acts + seq![ActionModel::Draw]);
}

/// The id `id` is the id of some entry of `t`.
pub open spec fn id_in(t: Seq<(u32, crate::windows::WindowModel)>, id: u32) -> bool {
    exists|j: int| 0 <= j < t.len() && t[j].0 == id
}

proof fn lemma_insert_ids(s: Seq<(u32, crate::windows::WindowModel)>, x: (u32, crate::windows::WindowModel))
    ensures
        forall|k: int| 0 <= k < crate::layout::insert_by_name(s, x).len()
            ==> (#[trigger] crate::layout::insert_by_name(s, x)[k]).0 == x.0 || id_in(s, crate::layout::insert_by_name(s, x)[k].0),
    decreases s.len(),
{
    let ins = crate::layout::insert_by_name(s, x);
    if s.len() == 0 {
    } else if crate::layout::seq_lt(x.1.app_name, s[0].1.app_name) {
        assert forall|k: int| 0 <= k < ins.len() implies (#[trigger] ins[k]).0 == x.0 || id_in(s, ins[k].0) by {
            if k > 0 {
                assert(ins[k] == s[k - 1]);
            }
        }
    } else {
        let t = s.drop_first();
        lemma_insert_ids(t, x);
        let it = crate::layout::insert_by_name(t, x);
        assert(ins == seq![s[0]] + it);
        assert forall|k: int| 0 <= k < ins.len() implies (#[trigger] ins[k]).0 == x.0 || id_in(s, ins[k].0) by {
            if k == 0 {
                assert(ins[0] == s[0]);
            } else {
                assert(ins[k] == it[k - 1]);
                if it[k - 1].0 != x.0 {
                    assert(id_in(t, it[k - 1].0));
                    let j = choose|j: int| 0 <= j < t.len() && t[j].0 == it[k - 1].0;
                    assert(t[j] == s[j + 1]);
                }
            }
        }
    }
}

proof fn lemma_sort_ids(s: Seq<(u32, crate::windows::WindowModel)>)
    ensures
        forall|k: int| 0 <= k < sort_by_name(s).len() ==> id_in(s, (#[trigger] sort_by_name(s)[k]).0),
    decreases s.len(),
{
    if s.len() > 0 {
        let d = s.drop_last();
        lemma_sort_ids(d);
        lemma_insert_ids(sort_by_name(d), s.last());
        let so = sort_by_name(s);
        assert forall|k: int| 0 <= k < so.len() implies id_in(s, (#[trigger] so[k]).0) by {
            if so[k].0 == s.last().0 {
                assert(s[s.len() - 1].0 == so[k].0);
            } else {
                let sd = sort_by_name(d);
                let j = choose|j: int| 0 <= j < sd.len() && sd[j].0 == so[k].0;
                assert(id_in(d, sd[j].0));
                let j2 = choose|j2: int| 0 <= j2 < d.len() && d[j2].0 == sd[j].0;
                assert(d[j2] == s[j2]);
            }
        }
    }
}

proof fn lemma_running_in(so: Seq<(u32, crate::windows::WindowModel)>, app: Seq<char>)
    ensures
        forall|k: int| 0 <= k < running_ids(so, app).len() ==> id_in(so, #[trigger] running_ids(so, app)[k]),
    decreases so.len(),
{
    if so.len() > 0 {
        let d = so.drop_last();
        lemma_running_in(d, app);
        let r = running_ids(so, app);
        let rd = running_ids(d, app);
        assert forall|k: int| 0 <= k < r.len() implies id_in(so, #[trigger] r[k]) by {
            if k < rd.len() {
                assert(r[k] == rd[k]);
                let j = choose|j: int| 0 <= j < d.len() && d[j].0 == rd[k];
                assert(d[j] == so[j]);
            } else {
                assert(r[k] == so.last().0);
                assert(so[so.len() - 1].0 == r[k]);
            }
        }
    }
}

/// Every window listed for an app in the dock is open.
proof fn lemma_running_open(s: DockState, app: Seq<char>, r: int)
    requires
        ids_unique(s.open_windows@),
        0 <= r < dock_running(s, app).len(),
    ensures
        has_window(s, dock_running(s, app)[r]),
{
    let em = entries_model(s.open_windows@);
    let so = sort_by_name(em);
    lemma_running_in(so, app);
    let id = dock_running(s, app)[r];
    let j = choose|j: int| 0 <= j < so.len() && so[j].0 == id;
    lemma_sort_ids(em);
    assert(id_in(em, so[j].0));
    let i = choose|i: int| 0 <= i < em.len() && em[i].0 == id;
    assert(s.open_windows@[i].id == id);
    lemma_table_view(s.open_windows@);
}

/// A left click on row `r` of the open window-list popup of the hovered app activates
/// the `r`-th window of that app (the app's windows in app-name order), then asks for
/// a repaint.
pub proof fn law_popup_click_activates_row(s: DockState, now: u64, r: int, app: Seq<char>)
    requires
        ids_unique(s.open_windows@),
        s.height >= DOCK_HEIGHT,
        !s.menu_state.is_open,
        s.hover_state.is_visible,
        opt_view(s.hover_state.app_id) == Some(app),
        icon_under(s, s.ui()) is None,
        0 <= r < dock_running(s, app).len(),
        ({
            let b = spec_hover_menu_bounds(s.hover_state.x as int, s.width as int, s.height as int, dock_running(s, app).len() as int);
            &&& b.0 <= s.pointer_x <= b.0 + b.2
            &&& b.1 + HOVER_ITEM_HEIGHT * r <= s.pointer_y < b.1 + HOVER_ITEM_HEIGHT * (r + 1)
        }),
    ensures
        spec_pointer_frame(s, seq![PointerEvent::Press { button: BUTTON_LEFT }], now).1
            == seq![ActionModel::Activate(dock_running(s, app)[r]), ActionModel::Draw],
{
    let events = seq![PointerEvent::Press { button: BUTTON_LEFT }];
    let u0 = UiModel { last_interact: now, ..s.ui() };
    let n = dock_running(s, app).len() as int;
    let b = spec_hover_menu_bounds(s.hover_state.x as int, s.width as int, s.height as int, n);
    assert(s.pointer_y < b.1 + b.3) by (nonlinear_arith)
        requires
            s.pointer_y < b.1 + 30 * (r + 1),
            r < n,
            b.3 == n * 30,
    ;
    assert(events.drop_last() =~= Seq::<PointerEvent>::empty());
    assert(motion_fold(u0, false, events.drop_last()) == (u0, false));
    let m = motion_fold(u0, false, events);
    assert(m.0 == u0);
    assert(!pointer_gone(events.drop_last()));
    assert(!pointer_gone(events));
    assert(icon_under(s, u0) is None);
    assert(on_popup(s, u0));
    let hs = hover_step(s, m.0, m.1, now, pointer_gone(events));
    assert(hs.0.hover_visible && hs.0.hover_app == Some(app) && hs.0.hover_x == s.hover_state.x);
    assert(!hs.0.menu_open && hs.0.pointer_x == s.pointer_x && hs.0.pointer_y == s.pointer_y);
    let u2 = UiModel { menu_open: false, ..hs.0 };
    assert((s.pointer_y - b.1) / (HOVER_ITEM_HEIGHT as int) == r);
    assert(popup_row(s, u2) == Some(r));
    lemma_running_open(s, app, r);
    let acc0 = PressAcc { u: hs.0, changed: hs.1, actions: Seq::empty(), done: false };
    assert(press_fold(s, acc0, events) == press_step(s, press_fold(s, acc0, events.drop_last()), events.last()));
    let acc = press_fold(s, acc0, events);
    assert(acc.done);
    assert(acc.actions =~= seq![ActionModel::Activate(dock_running(s, app)[r]), ActionModel::Draw]);
}

proof fn lemma_rspan_suffix(a: Seq<char>, d: Seq<char>, f: spec_fn(char) -> bool)
    requires
        forall|i: int| 0 <= i < d.len() ==> f(#[trigger] d[i]),
    ensures
        rspan_len(a + d, f) == d.len() + rspan_len(a, f),
    decreases d.len(),
{
    if d.len() == 0 {
        assert(a + d =~= a);
    } else {
        assert((a + d).drop_last() =~= a + d.drop_last());
        assert((a + d).last() == d.last());
        assert(f(d[d.len() - 1]));
        assert forall|i: int| 0 <= i < d.drop_last().len() implies f(#[trigger] d.drop_last()[i]) by {
            assert(d.drop_last()[i] == d[i]);
        }
        lemma_rspan_suffix(a, d.drop_last(), f);
    }
}

/// An app id made of a prefix, `_` and a non-empty run of numeric characters is
/// launched and pinned under the prefix alone, whatever underscores the prefix holds
/// (unless the prefix names Transmission).
pub proof fn law_normalize_strips_last_numeric_suffix(p: Seq<char>, d: Seq<char>)
    requires
        d.len() > 0,
        !d.contains('_'),
        forall|i: int| 0 <= i < d.len() ==> spec_is_numeric(#[trigger] d[i]),
        !spec_contains(spec_to_lowercase(p), "transmission"@),
    ensures
        spec_normalize_app_id(p + seq!['_'] + d) == p,
{
    let f = not_char('_');
    let a = p + seq!['_'];
    assert forall|i: int| 0 <= i < d.len() implies f(#[trigger] d[i]) by {
        if d[i] == '_' {
            assert(d.contains('_'));
        }
    }
    lemma_rspan_suffix(a, d, f);
    assert(a.last() == '_');
    assert(rspan_len(a, f) == 0);
    let x = a + d;
    assert(x == p + seq!['_'] + d);
    assert(rspan_len(x, f) == d.len());
    assert forall|j: int| x.len() - d.len() <= j < x.len() implies spec_is_numeric(#[trigger] x[j]) by {
        assert(x[j] == d[j - (x.len() - d.len())]);
    }
    assert(x.take(x.len() - d.len() - 1) =~= p);
    assert(spec_strip_numeric_suffix(x) == p);
}

} // verus!

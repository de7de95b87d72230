//! The table of open toplevel windows that the dock tracks, and how the
//! compositor's foreign-toplevel events change it.
use vstd::prelude::*;
use wayland_protocols_wlr::foreign_toplevel::v1::client::zwlr_foreign_toplevel_handle_v1;
use crate::persistence::spec_native_little;
use crate::desktop::{first_index, lemma_first_index, lemma_first_index_none};

verus! {

/// Focus bookkeeping of a window.
#[derive(PartialEq, Eq, Structural, Clone, Copy, Debug)]
pub enum LastState {
    NotSet,
    ReceivedFocus,
    ReportedInactive,
}

/// What the dock knows about one open toplevel window.
/// (The compositor handle itself stays with the caller, keyed by the window id.)
pub struct WindowDiagnostics {
    pub app_name: String,
    pub title: String,
    pub matched_pid: Option<u32>,
    pub icon_name: String,
    pub terminal_icon_code: String,
    pub app_id: String,
    pub is_activated: bool,
    pub is_minimized: bool,
    pub icon_rgba: Option<Vec<u8>>,
    pub icon_size: u32,
    pub last_state: LastState,
    pub is_pending: bool,
}

/// Mathematical picture of a [`WindowDiagnostics`].
pub struct WindowModel {
    pub app_name: Seq<char>,
    pub title: Seq<char>,
    pub matched_pid: Option<u32>,
    pub icon_name: Seq<char>,
    pub terminal_icon_code: Seq<char>,
    pub app_id: Seq<char>,
    pub is_activated: bool,
    pub is_minimized: bool,
    pub icon_rgba: Option<Seq<u8>>,
    pub icon_size: u32,
    pub last_state: LastState,
    pub is_pending: bool,
}

impl View for WindowDiagnostics {
    type V = WindowModel;

    open spec fn view(&self) -> WindowModel {
        WindowModel {
            app_name: self.app_name@,
            title: self.title@,
            matched_pid: self.matched_pid,
            icon_name: self.icon_name@,
            terminal_icon_code: self.terminal_icon_code@,
            app_id: self.app_id@,
            is_activated: self.is_activated,
            is_minimized: self.is_minimized,
            icon_rgba: match self.icon_rgba {
                Some(v) => Some(v@),
                None => None,
            },
            icon_size: self.icon_size,
            last_state: self.last_state,
            is_pending: self.is_pending,
        }
    }
}

/// The state a freshly announced window starts in.
pub open spec fn new_window_model() -> WindowModel {
    WindowModel {
        app_name: "Unknown"@,
        title: "Unknown"@,
        matched_pid: None,
        icon_name: Seq::empty(),
        terminal_icon_code: Seq::empty(),
        app_id: Seq::empty(),
        is_activated: false,
        is_minimized: false,
        icon_rgba: None,
        icon_size: 48,
        last_state: LastState::NotSet,
        is_pending: false,
    }
}

impl WindowDiagnostics {
    /// A window the compositor has just announced: named "Unknown", no icon yet,
    /// neither active nor minimized, icon size 48.
    pub fn new() -> (r: Self)
        ensures
            r@ == new_window_model(),
    {
        WindowDiagnostics {
            app_name: String::from_str("Unknown"),
            title: String::from_str("Unknown"),
            matched_pid: None,
            icon_name: String::new(),
            terminal_icon_code: String::new(),
            app_id: String::new(),
            is_activated: false,
            is_minimized: false,
            icon_rgba: None,
            icon_size: 48,
            last_state: LastState::NotSet,
            is_pending: false,
        }
    }
}

/// One row of the window table: the compositor's id of the window and what is known of it.
pub struct WindowEntry {
    pub id: u32,
    pub info: WindowDiagnostics,
}

/// No id occurs twice in the table.
pub open spec fn ids_unique(s: Seq<WindowEntry>) -> bool {
    forall|i: int, j: int| 0 <= i < s.len() && 0 <= j < s.len() && i != j ==> s[i].id != s[j].id
}

/// The table as a map from window id to window.
pub open spec fn table_view(s: Seq<WindowEntry>) -> Map<u32, WindowModel>
    decreases s.len(),
{
    if s.len() == 0 {
        Map::empty()
    } else {
        table_view(s.drop_last()).insert(s.last().id, s.last().info@)
    }
}

pub proof fn lemma_table_view(s: Seq<WindowEntry>)
    requires
        ids_unique(s),
    ensures
        forall|id: u32| #[trigger] table_view(s).contains_key(id) <==> (exists|i: int| 0 <= i < s.len() && s[i].id == id),
        forall|i: int| 0 <= i < s.len() ==> table_view(s)[#[trigger] s[i].id] == s[i].info@,
    decreases s.len(),
{
    if s.len() > 0 {
        let t = s.drop_last();
        assert(ids_unique(t));
        lemma_table_view(t);
        assert forall|id: u32| #[trigger] table_view(s).contains_key(id) <==> (exists|i: int| 0 <= i < s.len() && s[i].id == id) by {
            if table_view(s).contains_key(id) {
                if id == s.last().id {
                    assert(s[s.len() - 1].id == id);
                } else {
                    assert(table_view(t).contains_key(id));
                    let i = choose|i: int| 0 <= i < t.len() && t[i].id == id;
                    assert(t[i] == s[i]);
                    assert(s[i].id == id);
                }
            }
            if exists|i: int| 0 <= i < s.len() && s[i].id == id {
                let i = choose|i: int| 0 <= i < s.len() && s[i].id == id;
                if i < t.len() {
                    assert(t[i] == s[i]);
                    assert(t[i].id == id);
                    assert(table_view(t).contains_key(id));
                }
            }
        }
        assert forall|i: int| 0 <= i < s.len() implies table_view(s)[#[trigger] s[i].id] == s[i].info@ by {
            if i < t.len() {
                assert(t[i] == s[i]);
                assert(s[i].id != s.last().id);
            }
        }
    }
}

/// Position of the row with id `id`.
pub fn find_window(ws: &Vec<WindowEntry>, id: u32) -> (r: Option<usize>)
    ensures
        r matches Some(i) ==> i < ws@.len() && ws@[i as int].id == id,
        r is None ==> forall|i: int| 0 <= i < ws@.len() ==> ws@[i].id != id,
{
    let mut i: usize = 0;
    while i < ws.len()
        invariant
            i <= ws@.len(),
            forall|k: int| 0 <= k < i ==> ws@[k].id != id,
        decreases ws@.len() - i,
    {
        if ws[i].id == id {
            return Some(i);
        }
        i += 1;
    }
    None
}

/// Adds a fresh row for `id` unless the table has one already.
pub fn ensure_window(ws: &mut Vec<WindowEntry>, id: u32) -> (idx: usize)
    requires
        ids_unique(old(ws)@),
    ensures
        ids_unique(final(ws)@),
        idx < final(ws)@.len(),
        final(ws)@[idx as int].id == id,
        table_view(final(ws)@) == (if table_view(old(ws)@).contains_key(id) {
            table_view(old(ws)@)
        } else {
            table_view(old(ws)@).insert(id, new_window_model())
        }),
{
    proof { lemma_table_view(old(ws)@); }
    match find_window(ws, id) {
        Some(i) => {
            assert(table_view(ws@).contains_key(id));
            i
        },
        None => {
            assert(!table_view(ws@).contains_key(id));
            ws.push(WindowEntry { id, info: WindowDiagnostics::new() });
            assert(ws@.drop_last() =~= old(ws)@);
            ws.len() - 1
        },
    }
}

/// Removes the row with id `id`, if there is one.
pub fn remove_window(ws: &mut Vec<WindowEntry>, id: u32)
    requires
        ids_unique(old(ws)@),
    ensures
        ids_unique(final(ws)@),
        table_view(final(ws)@) == table_view(old(ws)@).remove(id),
{
    proof { lemma_table_view(old(ws)@); }
    match find_window(ws, id) {
        Some(i) => {
            let ghost s = ws@;
            ws.remove(i);
            proof {
                let t = ws@;
                assert(t =~= s.remove(i as int));
                assert(ids_unique(t)) by {
                    assert forall|a: int, b: int| 0 <= a < t.len() && 0 <= b < t.len() && a != b implies t[a].id != t[b].id by {
                        let a2 = if a < i { a } else { a + 1 };
                        let b2 = if b < i { b } else { b + 1 };
                        assert(t[a] == s[a2]);
                        assert(t[b] == s[b2]);
                    }
                }
                lemma_table_view(t);
                let m1 = table_view(t);
                let m2 = table_view(s).remove(id);
                assert forall|k: u32| #[trigger] m1.contains_key(k) <==> m2.contains_key(k) by {
                    if m1.contains_key(k) {
                        let a = choose|a: int| 0 <= a < t.len() && t[a].id == k;
                        let a2 = if a < i { a } else { a + 1 };
                        assert(t[a] == s[a2]);
                    }
                    if m2.contains_key(k) {
                        let a = choose|a: int| 0 <= a < s.len() && s[a].id == k;
                        assert(a != i);
                        let a2 = if a < i { a } else { a - 1 };
                        assert(t[a2] == s[a]);
                    }
                }
                assert forall|k: u32| m1.contains_key(k) implies #[trigger] m1[k] == m2[k] by {
                    let a = choose|a: int| 0 <= a < t.len() && t[a].id == k;
                    let a2 = if a < i { a } else { a + 1 };
                    assert(t[a] == s[a2]);
                }
                assert(m1 =~= m2);
            }
        },
        None => {
            assert(table_view(ws@).remove(id) =~= table_view(ws@));
        },
    }
}


/// States a toplevel can report, as the wlr foreign-toplevel protocol numbers them.
#[derive(PartialEq, Eq, Structural, Clone, Copy, Debug)]
pub enum ToplevelState {
    Maximized,
    Minimized,
    Activated,
    Fullscreen,
}

/// The protocol's numbering of toplevel states: 0 maximized, 1 minimized,
/// 2 activated, 3 fullscreen; other values name no state.
pub open spec fn spec_toplevel_state(v: u32) -> Option<ToplevelState> {
    if v == 0 {
        Some(ToplevelState::Maximized)
    } else if v == 1 {
        Some(ToplevelState::Minimized)
    } else if v == 2 {
        Some(ToplevelState::Activated)
    } else if v == 3 {
        Some(ToplevelState::Fullscreen)
    } else {
        None
    }
}

/// Calls `zwlr_foreign_toplevel_handle_v1::State::try_from`, which the protocol scanner
/// generates as a match of 0, 1, 2, 3 onto maximized, minimized, activated, fullscreen
/// and `Err(())` for every other value.
#[verifier::external_body]
fn toplevel_state_from_u32(v: u32) -> (r: Option<ToplevelState>)
    ensures
        r == spec_toplevel_state(v),
{
    match zwlr_foreign_toplevel_handle_v1::State::try_from(v) {
        Ok(zwlr_foreign_toplevel_handle_v1::State::Maximized) => Some(ToplevelState::Maximized),
        Ok(zwlr_foreign_toplevel_handle_v1::State::Minimized) => Some(ToplevelState::Minimized),
        Ok(zwlr_foreign_toplevel_handle_v1::State::Activated) => Some(ToplevelState::Activated),
        Ok(zwlr_foreign_toplevel_handle_v1::State::Fullscreen) => Some(ToplevelState::Fullscreen),
        Ok(_) => None,
        Err(()) => None,
    }
}

/// The four bytes at `4 * i` read as a little-endian `u32`.
pub open spec fn le_word(b: Seq<u8>, i: int) -> int {
    b[4 * i] + 256 * b[4 * i + 1] + 65536 * b[4 * i + 2] + 16777216 * b[4 * i + 3]
}

/// The four bytes at `4 * i` read as a big-endian `u32`.
pub open spec fn be_word(b: Seq<u8>, i: int) -> int {
    16777216 * b[4 * i] + 65536 * b[4 * i + 1] + 256 * b[4 * i + 2] + b[4 * i + 3]
}

/// The word at `4 * i` read in the machine's own byte order.
pub open spec fn native_word(b: Seq<u8>, i: int) -> int {
    if spec_native_little() { le_word(b, i) } else { be_word(b, i) }
}

/// Calls `u32::from_ne_bytes`: the four bytes read in the machine's own byte order.
#[verifier::external_body]
fn u32_from_ne_bytes(b: [u8; 4]) -> (r: u32)
    ensures
        r as int == native_word(b@, 0),
{
    u32::from_ne_bytes(b)
}

/// The complete 4-byte chunks of `bytes`, each read in the machine's byte order
/// (a trailing partial chunk is ignored, as `chunks_exact` does).
pub open spec fn spec_state_words(bytes: Seq<u8>) -> Seq<u32> {
    Seq::new((bytes.len() / 4) as nat, |i: int| native_word(bytes, i) as u32)
}

/// Reads the state array of a toplevel as native-endian `u32` words.
pub fn decode_state_words(bytes: &[u8]) -> (r: Vec<u32>)
    ensures
        r@ == spec_state_words(bytes@),
{
    let len = bytes.len();
    let n = len / 4;
    let mut r: Vec<u32> = Vec::new();
    let mut i: usize = 0;
    while i < n
        invariant
            len == bytes@.len(),
            n == bytes@.len() / 4,
            i <= n,
            r@.len() == i,
            forall|k: int| 0 <= k < i ==> #[trigger] r@[k] as int == native_word(bytes@, k),
        decreases n - i,
    {
        assert(4 * i + 3 < bytes@.len()) by (nonlinear_arith)
            requires
                i < n,
                n == bytes@.len() / 4,
        ;
        let chunk: [u8; 4] = [bytes[4 * i], bytes[4 * i + 1], bytes[4 * i + 2], bytes[4 * i + 3]];
        let w = u32_from_ne_bytes(chunk);
        proof {
            assert(chunk@[0] == bytes@[4 * i]);
            assert(chunk@[1] == bytes@[4 * i + 1]);
            assert(chunk@[2] == bytes@[4 * i + 2]);
            assert(chunk@[3] == bytes@[4 * i + 3]);
        }
        r.push(w);
        i += 1;
    }
    r
}

/// `(activated, minimized)`: whether any word names the activated state, and whether any
/// names the minimized state.
pub open spec fn spec_window_states(words: Seq<u32>) -> (bool, bool) {
    (
        exists|i: int| 0 <= i < words.len() && spec_toplevel_state(#[trigger] words[i]) == Some(ToplevelState::Activated),
        exists|i: int| 0 <= i < words.len() && spec_toplevel_state(#[trigger] words[i]) == Some(ToplevelState::Minimized),
    )
}

/// `(activated, minimized)` of a toplevel whose state array holds `words`.
pub fn window_states_from_words(words: &Vec<u32>) -> (r: (bool, bool))
    ensures
        r == spec_window_states(words@),
{
    let mut activated = false;
    let mut minimized = false;
    let mut i: usize = 0;
    while i < words.len()
        invariant
            i <= words@.len(),
            activated == (exists|k: int| 0 <= k < i && spec_toplevel_state(#[trigger] words@[k]) == Some(ToplevelState::Activated)),
            minimized == (exists|k: int| 0 <= k < i && spec_toplevel_state(#[trigger] words@[k]) == Some(ToplevelState::Minimized)),
        decreases words@.len() - i,
    {
        match toplevel_state_from_u32(words[i]) {
            Some(ToplevelState::Activated) => {
                activated = true;
            },
            Some(ToplevelState::Minimized) => {
                minimized = true;
            },
            _ => {},
        }
        i += 1;
    }
    (activated, minimized)
}

/// `(activated, minimized)` of a toplevel whose state event carried `state_bytes`.
pub fn parse_window_states(state_bytes: &[u8]) -> (r: (bool, bool))
    ensures
        r == spec_window_states(spec_state_words(state_bytes@)),
{
    let words = decode_state_words(state_bytes);
    window_states_from_words(&words)
}

/// An event the compositor sends about one toplevel.
pub enum ToplevelEvent {
    Title(String),
    AppId(String),
    State(Vec<u8>),
    Done,
    Closed,
    Other,
}

/// What the caller has to do after an event has been applied.
pub struct ToplevelOutcome {
    /// Repaint the dock.
    pub redraw: bool,
    /// Refresh the icon of the window.
    pub refresh_icon: bool,
}

/// The table after a fresh row for `id` was added if it was missing.
pub open spec fn with_window(m: Map<u32, WindowModel>, id: u32) -> Map<u32, WindowModel> {
    if m.contains_key(id) { m } else { m.insert(id, new_window_model()) }
}

/// Records a newly announced toplevel: the table gains a fresh row unless it has one.
/// The dock is repainted afterwards.
pub fn announce_toplevel(ws: &mut Vec<WindowEntry>, id: u32) -> (redraw: bool)
    requires
        ids_unique(old(ws)@),
    ensures
        ids_unique(final(ws)@),
        table_view(final(ws)@) == with_window(table_view(old(ws)@), id),
        redraw,
{
    ensure_window(ws, id);
    true
}

/// Applies one event about toplevel `id` to the window table.  A row is created for an
/// unknown id first; `Closed` removes the row; `Title` and `AppId` rename it (the app id
/// is also its app name); `State` records whether it is activated and minimized and
/// clears the pending flag.
pub fn handle_toplevel_event(ws: &mut Vec<WindowEntry>, id: u32, ev: ToplevelEvent) -> (out: ToplevelOutcome)
    requires
        ids_unique(old(ws)@),
    ensures
        ids_unique(final(ws)@),
        ({
            let m = with_window(table_view(old(ws)@), id);
            let w = m[id];
            match ev {
                ToplevelEvent::Closed => table_view(final(ws)@) == table_view(old(ws)@).remove(id),
                ToplevelEvent::Title(t) => table_view(final(ws)@) == m.insert(id, WindowModel { title: t@, ..w }),
                ToplevelEvent::AppId(a) => table_view(final(ws)@) == m.insert(id, WindowModel { app_id: a@, app_name: a@, ..w }),
                ToplevelEvent::State(b) => table_view(final(ws)@) == m.insert(
                    id,
                    WindowModel {
                        is_activated: spec_window_states(spec_state_words(b@)).0,
                        is_minimized: spec_window_states(spec_state_words(b@)).1,
                        is_pending: false,
                        ..w
                    },
                ),
                _ => table_view(final(ws)@) == m,
            }
        }),
        out.redraw == !(ev is Other),
        out.refresh_icon == (ev is Done || ev is Title || ev is AppId),
{
    let ghost old_map = table_view(ws@);
    let idx = ensure_window(ws, id);
    let ghost m = table_view(ws@);
    proof { lemma_table_view(ws@); }
    match ev {
        ToplevelEvent::Closed => {
            remove_window(ws, id);
            assert(m.remove(id) =~= old_map.remove(id));
            ToplevelOutcome { redraw: true, refresh_icon: false }
        },
        ToplevelEvent::Done => ToplevelOutcome { redraw: true, refresh_icon: true },
        ToplevelEvent::Title(t) => {
            let ghost s = ws@;
            let mut e = ws.remove(idx);
            e.info.title = t;
            ws.insert(idx, e);
            proof { lemma_replaced(s, ws@, idx as int); }
            ToplevelOutcome { redraw: true, refresh_icon: true }
        },
        ToplevelEvent::AppId(a) => {
            let ghost s = ws@;
            let mut e = ws.remove(idx);
            e.info.app_id = a.clone();
            e.info.app_name = a.clone();
            ws.insert(idx, e);
            proof { lemma_replaced(s, ws@, idx as int); }
            ToplevelOutcome { redraw: true, refresh_icon: true }
        },
        ToplevelEvent::State(b) => {
            let (activated, minimized) = parse_window_states(b.as_slice());
            let ghost s = ws@;
            let mut e = ws.remove(idx);
            e.info.is_activated = activated;
            e.info.is_minimized = minimized;
            e.info.is_pending = false;
            ws.insert(idx, e);
            proof { lemma_replaced(s, ws@, idx as int); }
            ToplevelOutcome { redraw: true, refresh_icon: false }
        },
        ToplevelEvent::Other => ToplevelOutcome { redraw: false, refresh_icon: false },
    }
}

/// Replacing the row at `i` by one with the same id replaces that id's entry in the map.
proof fn lemma_replaced(s: Seq<WindowEntry>, t: Seq<WindowEntry>, i: int)
    requires
        ids_unique(s),
        0 <= i < s.len(),
        t.len() == s.len(),
        t[i].id == s[i].id,
        forall|j: int| 0 <= j < s.len() && j != i ==> t[j] == s[j],
    ensures
        ids_unique(t),
        table_view(t) == table_view(s).insert(s[i].id, t[i].info@),
{
    assert(ids_unique(t)) by {
        assert forall|a: int, b: int| 0 <= a < t.len() && 0 <= b < t.len() && a != b implies t[a].id != t[b].id by {
            if a != i { assert(t[a] == s[a]); }
            if b != i { assert(t[b] == s[b]); }
        }
    }
    lemma_table_view(s);
    lemma_table_view(t);
    let m1 = table_view(t);
    let m2 = table_view(s).insert(s[i].id, t[i].info@);
    assert forall|k: u32| #[trigger] m1.contains_key(k) <==> m2.contains_key(k) by {
        if m1.contains_key(k) {
            let a = choose|a: int| 0 <= a < t.len() && t[a].id == k;
            if a != i { assert(t[a] == s[a]); }
        }
        if m2.contains_key(k) && k != s[i].id {
            let a = choose|a: int| 0 <= a < s.len() && s[a].id == k;
            assert(t[a] == s[a]);
        }
    }
    assert forall|k: u32| m1.contains_key(k) implies #[trigger] m1[k] == m2[k] by {
        let a = choose|a: int| 0 <= a < t.len() && t[a].id == k;
        if a != i {
            assert(t[a] == s[a]);
        }
    }
    assert(m1 =~= m2);
}

/// The window belongs to the app `app`.
pub open spec fn of_app(app: Seq<char>) -> spec_fn(WindowEntry) -> bool {
    |e: WindowEntry| e.info@.app_id == app
}

/// The icon saved when the app `app` is pinned, as `(pixels, size)`: the one already
/// loaded for it (`loaded`), if any; else that of the first window of the app in the
/// table, if that window has one.
pub fn icon_to_cache(loaded: Option<(&Vec<u8>, u32)>, ws: &Vec<WindowEntry>, app: &str) -> (r: Option<(Vec<u8>, u32)>)
    ensures
        match loaded {
            Some((p, n)) => r matches Some((q, m)) && q@ == p@ && m == n,
            None => match first_index(ws@, of_app(app@)) {
                Some(i) => match ws@[i].info@.icon_rgba {
                    Some(p) => r matches Some((q, m)) && q@ == p && m == ws@[i].info.icon_size,
                    None => r is None,
                },
                None => r is None,
            },
        },
{
    match loaded {
        Some((p, n)) => {
            let q = p.clone();
            assert(q@ =~= p@);
            return Some((q, n));
        },
        None => {},
    }
    let target = crate::text::chars_of(app);
    let mut i: usize = 0;
    while i < ws.len()
        invariant
            i <= ws@.len(),
            loaded is None,
            target@ == app@,
            forall|k: int| 0 <= k < i ==> !of_app(app@)(#[trigger] ws@[k]),
        decreases ws@.len() - i,
    {
        if crate::text::chars_eq(&crate::text::chars_of(ws[i].info.app_id.as_str()), &target) {
            proof { lemma_first_index(ws@, of_app(app@), i as int); }
            let e = &ws[i];
            assert(e.info@.icon_rgba == (match e.info.icon_rgba {
                Some(v) => Some(v@),
                None => None::<Seq<u8>>,
            }));
            return match &e.info.icon_rgba {
                Some(p) => {
                    let q = p.clone();
                    assert(q@ =~= p@);
                    Some((q, e.info.icon_size))
                },
                None => None,
            };
        }
        i += 1;
    }
    proof { lemma_first_index_none(ws@, of_app(app@)); }
    None
}

} // verus!

//! The demo panel: a row of windows, each drawn as a square followed by a text label,
//! that a left click activates or minimizes.  Without live windows it runs on a list
//! of stand-in windows.
use vstd::prelude::*;
use crate::canvas::{Rect, fill_rect, spec_fill};
use crate::persistence::push_str;

verus! {

/// A window as the demo panel tracks it, with the horizontal extent of its entry
/// (square and label) on the panel for hit testing.
#[derive(Debug, Clone)]
pub struct TrackedWindow {
    pub title: String,
    pub app_id: String,
    pub is_activated: bool,
    pub is_minimized: bool,
    pub x_start: usize,
    pub x_end: usize,
}

pub struct TrackedModel {
    pub title: Seq<char>,
    pub app_id: Seq<char>,
    pub is_activated: bool,
    pub is_minimized: bool,
    pub x_start: usize,
    pub x_end: usize,
}

impl View for TrackedWindow {
    type V = TrackedModel;

    open spec fn view(&self) -> TrackedModel {
        TrackedModel {
            title: self.title@,
            app_id: self.app_id@,
            is_activated: self.is_activated,
            is_minimized: self.is_minimized,
            x_start: self.x_start,
            x_end: self.x_end,
        }
    }
}

impl Default for TrackedWindow {
    /// An untitled window without app id, neither active nor minimized, at 0..=0.
    fn default() -> (r: Self)
        ensures
            r@.title.len() == 0,
            r@.app_id.len() == 0,
            !r.is_activated,
            !r.is_minimized,
            r.x_start == 0,
            r.x_end == 0,
    {
        TrackedWindow {
            title: String::new(),
            app_id: String::new(),
            is_activated: false,
            is_minimized: false,
            x_start: 0,
            x_end: 0,
        }
    }
}

pub open spec fn panel_view(v: Seq<TrackedWindow>) -> Seq<TrackedModel> {
    v.map_values(|w: TrackedWindow| w@)
}

/// The status word shown after a window's title.
pub open spec fn spec_status(w: TrackedModel) -> Seq<char> {
    if w.is_minimized {
        "(Minimized)"@
    } else if w.is_activated {
        "(Active)"@
    } else {
        "(Idle)"@
    }
}

/// The label of a window: `"<app id>: <title> <status>"`.
pub open spec fn spec_label(w: TrackedModel) -> Seq<char> {
    w.app_id + ": "@ + w.title + " "@ + spec_status(w)
}

impl TrackedWindow {
    /// `(Minimized)`, `(Active)` or `(Idle)`: minimized wins over active.
    pub fn status(&self) -> (r: String)
        ensures
            r@ == spec_status(self@),
    {
        if self.is_minimized {
            String::from_str("(Minimized)")
        } else if self.is_activated {
            String::from_str("(Active)")
        } else {
            String::from_str("(Idle)")
        }
    }

    /// The text shown next to the window's square.
    pub fn label(&self) -> (r: String)
        ensures
            r@ == spec_label(self@),
    {
        let mut s = String::new();
        push_str(&mut s, self.app_id.as_str());
        push_str(&mut s, ": ");
        push_str(&mut s, self.title.as_str());
        push_str(&mut s, " ");
        let st = self.status();
        push_str(&mut s, st.as_str());
        proof {
            reveal_strlit(": ");
            reveal_strlit(" ");
        }
        assert(s@ =~= spec_label(self@));
        s
    }
}

/// Text shown at the top of the panel: which windows it shows.
pub fn mode_message(demo: bool) -> (r: String)
    ensures
        r@ == (if demo { "[DEMO BRIDGE ACTIVE - CLICK BOXES TO TEST]"@ } else { "[LIVE WAYLAND SYSTEM METRICS OVERLAY]"@ }),
{
    if demo {
        String::from_str("[DEMO BRIDGE ACTIVE - CLICK BOXES TO TEST]")
    } else {
        String::from_str("[LIVE WAYLAND SYSTEM METRICS OVERLAY]")
    }
}

// ---------------------------------------------------------------------------
// Hit testing and clicks
// ---------------------------------------------------------------------------

/// `x` lies within the entry of `w` (both ends included).
pub open spec fn hits(w: TrackedModel, x: int) -> bool {
    w.x_start <= x <= w.x_end
}

/// The first window whose entry holds `x`.
pub open spec fn first_hit(ws: Seq<TrackedModel>, x: int) -> Option<int> {
    if exists|i: int| 0 <= i < ws.len() && #[trigger] hits(ws[i], x) {
        Some(choose|i: int| 0 <= i < ws.len() && #[trigger] hits(ws[i], x) && forall|j: int| 0 <= j < i ==> !hits(ws[j], x))
    } else {
        None
    }
}

/// Index of the first window whose entry holds `x`.
pub fn find_hit(ws: &Vec<TrackedWindow>, x: usize) -> (r: Option<usize>)
    ensures
        r matches Some(i) ==> i < ws@.len() && hits(ws@[i as int]@, x as int) && forall|j: int| 0 <= j < i ==> !hits(#[trigger] ws@[j]@, x as int),
        r is None ==> forall|j: int| 0 <= j < ws@.len() ==> !hits(#[trigger] ws@[j]@, x as int),
        r matches Some(i) ==> first_hit(panel_view(ws@), x as int) == Some(i as int),
        r is None ==> first_hit(panel_view(ws@), x as int) is None,
{
    let ghost tv = panel_view(ws@);
    let mut i: usize = 0;
    while i < ws.len()
        invariant
            i <= ws@.len(),
            tv == panel_view(ws@),
            forall|j: int| 0 <= j < i ==> !hits(#[trigger] ws@[j]@, x as int),
        decreases ws@.len() - i,
    {
        if x >= ws[i].x_start && x <= ws[i].x_end {
            proof {
                assert(hits(tv[i as int], x as int));
                assert forall|j: int| 0 <= j < i implies !hits(#[trigger] tv[j], x as int) by {
                    assert(tv[j] == ws@[j]@);
                }
                let k = choose|k: int| 0 <= k < tv.len() && #[trigger] hits(tv[k], x as int) && forall|j: int| 0 <= j < k ==> !hits(tv[j], x as int);
                if k < i {
                    assert(tv[k] == ws@[k]@);
                }
                if k > i {
                    assert(!hits(tv[i as int], x as int));
                }
            }
            return Some(i);
        }
        i += 1;
    }
    proof {
        assert forall|j: int| 0 <= j < tv.len() implies !#[trigger] hits(tv[j], x as int) by {
            assert(tv[j] == ws@[j]@);
        }
    }
    None
}

/// The stand-in windows after a click on window `i`: an active window is deactivated
/// and minimized; any other becomes the only active window and is restored.
pub open spec fn spec_click(ws: Seq<TrackedModel>, i: int) -> Seq<TrackedModel> {
    if ws[i].is_activated {
        ws.update(i, TrackedModel { is_activated: false, is_minimized: true, ..ws[i] })
    } else {
        Seq::new(ws.len(), |j: int|
            if j == i {
                TrackedModel { is_activated: true, is_minimized: false, ..ws[j] }
            } else {
                TrackedModel { is_activated: false, ..ws[j] }
            })
    }
}

/// Sets the activation and minimization flags of window `i`.
fn set_flags(ws: &mut Vec<TrackedWindow>, i: usize, activated: bool, minimized: bool)
    requires
        i < old(ws)@.len(),
    ensures
        final(ws)@.len() == old(ws)@.len(),
        panel_view(final(ws)@) == panel_view(old(ws)@).update(
            i as int,
            TrackedModel { is_activated: activated, is_minimized: minimized, ..old(ws)@[i as int]@ },
        ),
{
    let ghost before = panel_view(ws@);
    let mut w = ws.remove(i);
    w.is_activated = activated;
    w.is_minimized = minimized;
    ws.insert(i, w);
    assert(panel_view(ws@) =~= before.update(i as int, TrackedModel { is_activated: activated, is_minimized: minimized, ..old(ws)@[i as int]@ }));
}

/// A left click at `x` on the panel of stand-in windows: the first window whose entry
/// holds `x` is toggled (see [`spec_click`]).  Returns the index of that window.
pub fn click_demo(ws: &mut Vec<TrackedWindow>, x: usize) -> (r: Option<usize>)
    ensures
        r == (match first_hit(panel_view(old(ws)@), x as int) {
            Some(i) => Some(i as usize),
            None => None::<usize>,
        }),
        r matches Some(i) ==> panel_view(final(ws)@) == spec_click(panel_view(old(ws)@), i as int),
        r is None ==> final(ws)@ == old(ws)@,
{
    let hit = find_hit(ws, x);
    match hit {
        None => None,
        Some(i) => {
            let ghost s = panel_view(ws@);
            if ws[i].is_activated {
                set_flags(ws, i, false, true);
                assert(panel_view(ws@) =~= spec_click(s, i as int));
            } else {
                let mut k: usize = 0;
                while k < ws.len()
                    invariant
                        k <= ws@.len(),
                        ws@.len() == s.len(),
                        i < s.len(),
                        !s[i as int].is_activated,
                        forall|j: int| 0 <= j < k ==> #[trigger] panel_view(ws@)[j] == (TrackedModel { is_activated: false, ..s[j] }),
                        forall|j: int| k <= j < s.len() ==> #[trigger] panel_view(ws@)[j] == s[j],
                    decreases ws@.len() - k,
                {
                    let m = ws[k].is_minimized;
                    assert(panel_view(ws@)[k as int] == ws@[k as int]@);
                    let ghost before = panel_view(ws@);
                    set_flags(ws, k, false, m);
                    proof {
                        assert forall|j: int| 0 <= j < k + 1 implies #[trigger] panel_view(ws@)[j] == (TrackedModel { is_activated: false, ..s[j] }) by {
                            if j < k {
                                assert(panel_view(ws@)[j] == before[j]);
                            }
                        }
                        assert forall|j: int| k + 1 <= j < s.len() implies #[trigger] panel_view(ws@)[j] == s[j] by {
                            assert(panel_view(ws@)[j] == before[j]);
                        }
                    }
                    k += 1;
                }
                let ghost mid = panel_view(ws@);
                set_flags(ws, i, true, false);
                assert(panel_view(ws@) =~= spec_click(s, i as int)) by {
                    assert forall|j: int| 0 <= j < s.len() implies #[trigger] panel_view(ws@)[j] == spec_click(s, i as int)[j] by {
                        assert(mid[j] == (TrackedModel { is_activated: false, ..s[j] }));
                    }
                }
            }
            Some(i)
        },
    }
}

/// After a click on a window that was not active, it is the only active window.
pub proof fn law_click_activates_alone(ws: Seq<TrackedModel>, i: int)
    requires
        0 <= i < ws.len(),
        !ws[i].is_activated,
    ensures
        spec_click(ws, i)[i].is_activated,
        !spec_click(ws, i)[i].is_minimized,
        forall|j: int| 0 <= j < ws.len() && j != i ==> !(#[trigger] spec_click(ws, i)[j]).is_activated,
{
}

/// A click on the active window minimizes it and leaves every other window as it was;
/// a second click on it then makes it the only active window again.
pub proof fn law_click_twice(ws: Seq<TrackedModel>, i: int)
    requires
        0 <= i < ws.len(),
        ws[i].is_activated,
    ensures
        spec_click(ws, i)[i].is_minimized,
        !spec_click(ws, i)[i].is_activated,
        forall|j: int| 0 <= j < ws.len() && j != i ==> #[trigger] spec_click(ws, i)[j] == ws[j],
        spec_click(spec_click(ws, i), i)[i].is_activated,
        forall|j: int| 0 <= j < ws.len() && j != i ==> !(#[trigger] spec_click(spec_click(ws, i), i)[j]).is_activated,
{
}

/// A live window of the panel: the compositor's id and what is known of it.
pub struct TrackedEntry {
    pub id: u32,
    pub window: TrackedWindow,
}

/// What a left click on the live panel asks of the compositor.
pub enum PanelClick {
    Minimize(u32),
    Activate(u32),
}

/// The live entry hit by a click at `x`, and what to ask for it: the first entry
/// whose extent holds `x`; an active window is minimized, another one activated.
pub open spec fn spec_live_click(ws: Seq<TrackedEntry>, x: int) -> Option<(u32, bool)> {
    match first_hit(ws.map_values(|e: TrackedEntry| e.window@), x) {
        Some(i) => Some((ws[i].id, ws[i].window.is_activated)),
        None => None,
    }
}

/// What a left click at `x` on the live panel asks for (`None` where it hits no entry).
pub fn click_live(ws: &Vec<TrackedEntry>, x: usize) -> (r: Option<PanelClick>)
    ensures
        match spec_live_click(ws@, x as int) {
            Some((id, active)) => r == Some(if active { PanelClick::Minimize(id) } else { PanelClick::Activate(id) }),
            None => r is None,
        },
{
    let ghost tv = ws@.map_values(|e: TrackedEntry| e.window@);
    let mut i: usize = 0;
    while i < ws.len()
        invariant
            i <= ws@.len(),
            tv == ws@.map_values(|e: TrackedEntry| e.window@),
            forall|j: int| 0 <= j < i ==> !hits(#[trigger] tv[j], x as int),
        decreases ws@.len() - i,
    {
        if x >= ws[i].window.x_start && x <= ws[i].window.x_end {
            proof {
                assert(hits(tv[i as int], x as int));
                let k = choose|k: int| 0 <= k < tv.len() && #[trigger] hits(tv[k], x as int) && forall|j: int| 0 <= j < k ==> !hits(tv[j], x as int);
                if k > i {
                    assert(!hits(tv[i as int], x as int));
                }
            }
            if ws[i].window.is_activated {
                return Some(PanelClick::Minimize(ws[i].id));
            } else {
                return Some(PanelClick::Activate(ws[i].id));
            }
        }
        i += 1;
    }
    None
}

// ---------------------------------------------------------------------------
// Drawing the panel
// ---------------------------------------------------------------------------

/// Left edge of the first entry.
pub const PANEL_MARGIN: usize = 20;
/// Side of a window's square.
pub const SQUARE_SIZE: usize = 32;
/// Gap between a square and its label.
pub const LABEL_GAP: usize = 12;
/// Gap after a label.
pub const ENTRY_GAP: usize = 40;

/// Extents (first and last column) of the entries from the `k`-th on, the `k`-th
/// starting at `cursor`: a square, a gap, a label `adv[k]` pixels wide, and a gap
/// before the next entry.  Entries stop after the first one that ends at or past
/// `width`.
pub open spec fn panel_extents(adv: Seq<usize>, width: int, k: int, cursor: int) -> Seq<(usize, usize)>
    decreases adv.len() - k,
{
    if k < 0 || k >= adv.len() {
        Seq::empty()
    } else {
        let end = cursor + SQUARE_SIZE + LABEL_GAP + adv[k];
        let next = end + ENTRY_GAP;
        seq![(cursor as usize, end as usize)] + (if next >= width {
            Seq::empty()
        } else {
            panel_extents(adv, width, k + 1, next)
        })
    }
}

/// Where the entries of the panel go, given the width in pixels of each entry's label
/// (`label_widths`, in display order) on a panel `width` pixels wide: the first and
/// last column of each entry that is drawn.
pub fn layout_panel(label_widths: &Vec<usize>, width: u32) -> (r: Vec<(usize, usize)>)
    requires
        forall|i: int| 0 <= i < label_widths@.len() ==> #[trigger] label_widths@[i] + width + 200 <= usize::MAX,
    ensures
        r@ == panel_extents(label_widths@, width as int, 0, PANEL_MARGIN as int),
{
    let ghost adv = label_widths@;
    let mut out: Vec<(usize, usize)> = Vec::new();
    let mut cursor: usize = PANEL_MARGIN;
    let mut i: usize = 0;
    while i < label_widths.len()
        invariant
            i <= adv.len(),
            adv == label_widths@,
            forall|j: int| 0 <= j < adv.len() ==> #[trigger] adv[j] + width + 200 <= usize::MAX,
            cursor <= width + PANEL_MARGIN,
            panel_extents(adv, width as int, 0, PANEL_MARGIN as int) == out@ + panel_extents(adv, width as int, i as int, cursor as int),
        decreases adv.len() - i,
    {
        assert(adv[i as int] + width + 200 <= usize::MAX);
        let start = cursor;
        let end = cursor + SQUARE_SIZE + LABEL_GAP + label_widths[i];
        let next = end + ENTRY_GAP;
        let ghost rest = panel_extents(adv, width as int, i as int, cursor as int);
        out.push((start, end));
        if next >= width as usize {
            assert(out@ =~= panel_extents(adv, width as int, 0, PANEL_MARGIN as int));
            return out;
        }
        assert(rest == seq![(start, end)] + panel_extents(adv, width as int, i + 1, next as int));
        cursor = next;
        i += 1;
        assert(panel_extents(adv, width as int, 0, PANEL_MARGIN as int) =~= out@ + panel_extents(adv, width as int, i as int, cursor as int));
    }
    assert(out@ =~= panel_extents(adv, width as int, 0, PANEL_MARGIN as int));
    out
}

/// Records the extents computed by [`layout_panel`] in the live entries, in order.
pub fn place_live_entries(ws: &mut Vec<TrackedEntry>, extents: &Vec<(usize, usize)>)
    requires
        extents@.len() <= old(ws)@.len(),
    ensures
        final(ws)@.len() == old(ws)@.len(),
        forall|i: int| 0 <= i < extents@.len() ==> (#[trigger] final(ws)@[i]).window@ == (TrackedModel {
            x_start: extents@[i].0,
            x_end: extents@[i].1,
            ..old(ws)@[i].window@
        }) && final(ws)@[i].id == old(ws)@[i].id,
        forall|i: int| extents@.len() <= i < old(ws)@.len() ==> #[trigger] final(ws)@[i] == old(ws)@[i],
{
    let mut i: usize = 0;
    while i < extents.len()
        invariant
            i <= extents@.len(),
            extents@.len() <= old(ws)@.len(),
            ws@.len() == old(ws)@.len(),
            forall|j: int| 0 <= j < i ==> (#[trigger] ws@[j]).window@ == (TrackedModel {
                x_start: extents@[j].0,
                x_end: extents@[j].1,
                ..old(ws)@[j].window@
            }) && ws@[j].id == old(ws)@[j].id,
            forall|j: int| i <= j < old(ws)@.len() ==> #[trigger] ws@[j] == old(ws)@[j],
        decreases extents@.len() - i,
    {
        let (a, b) = extents[i];
        let ghost before = ws@;
        let mut e = ws.remove(i);
        e.window.x_start = a;
        e.window.x_end = b;
        ws.insert(i, e);
        proof {
            assert forall|j: int| 0 <= j < i + 1 implies (#[trigger] ws@[j]).window@ == (TrackedModel {
                x_start: extents@[j].0,
                x_end: extents@[j].1,
                ..old(ws)@[j].window@
            }) && ws@[j].id == old(ws)@[j].id by {
                if j < i {
                    assert(ws@[j] == before[j]);
                }
            }
            assert forall|j: int| i + 1 <= j < old(ws)@.len() implies #[trigger] ws@[j] == old(ws)@[j] by {
                assert(ws@[j] == before[j]);
            }
        }
        i += 1;
    }
}

/// The stand-in windows after entry `k` (a copy of window `k` as it was when the
/// panel was laid out, with its new extent) has been stored over the first window
/// with the same app id.
pub open spec fn store_demo(ws: Seq<TrackedModel>, w: TrackedModel) -> Seq<TrackedModel> {
    if exists|i: int| 0 <= i < ws.len() && #[trigger] ws[i].app_id == w.app_id {
        let i = choose|i: int| 0 <= i < ws.len() && #[trigger] ws[i].app_id == w.app_id && forall|j: int| 0 <= j < i ==> ws[j].app_id != w.app_id;
        ws.update(i, w)
    } else {
        ws
    }
}

/// The stand-in windows after storing the first `k` laid-out entries, each a copy of
/// the window at its position in `snap` with the extent from `extents`.
pub open spec fn store_demo_all(ws: Seq<TrackedModel>, snap: Seq<TrackedModel>, extents: Seq<(usize, usize)>, k: int) -> Seq<TrackedModel>
    decreases k,
{
    if k <= 0 {
        ws
    } else {
        store_demo(
            store_demo_all(ws, snap, extents, k - 1),
            TrackedModel { x_start: extents[k - 1].0, x_end: extents[k - 1].1, ..snap[k - 1] },
        )
    }
}

/// A copy of `w` with the extent `a..=b`.
fn with_extent(w: &TrackedWindow, a: usize, b: usize) -> (r: TrackedWindow)
    ensures
        r@ == (TrackedModel { x_start: a, x_end: b, ..w@ }),
{
    TrackedWindow {
        title: w.title.clone(),
        app_id: w.app_id.clone(),
        is_activated: w.is_activated,
        is_minimized: w.is_minimized,
        x_start: a,
        x_end: b,
    }
}

/// Stores `w` over the first window with the same app id, if there is one.
fn store_one(ws: &mut Vec<TrackedWindow>, w: TrackedWindow)
    ensures
        panel_view(final(ws)@) == store_demo(panel_view(old(ws)@), w@),
{
    let ghost s = panel_view(ws@);
    let a = crate::text::chars_of(w.app_id.as_str());
    let mut i: usize = 0;
    while i < ws.len()
        invariant
            i <= ws@.len(),
            s == panel_view(ws@),
            s == panel_view(old(ws)@),
            a@ == w@.app_id,
            forall|j: int| 0 <= j < i ==> s[j].app_id != w@.app_id,
        decreases ws@.len() - i,
    {
        let c = crate::text::chars_of(ws[i].app_id.as_str());
        assert(s[i as int].app_id == c@);
        if crate::text::chars_eq(&c, &a) {
            proof {
                assert(s[i as int].app_id == w@.app_id && forall|j: int| 0 <= j < i ==> s[j].app_id != w@.app_id);
                let k = choose|k: int| 0 <= k < s.len() && #[trigger] s[k].app_id == w@.app_id && forall|j: int| 0 <= j < k ==> s[j].app_id != w@.app_id;
                if k > i {
                    assert(s[i as int].app_id == w@.app_id);
                }
                assert(k == i);
                assert(store_demo(s, w@) == s.update(i as int, w@));
            }
            let ghost wv = w@;
            ws.remove(i);
            ws.insert(i, w);
            assert(panel_view(ws@) =~= s.update(i as int, wv));
            return;
        }
        i += 1;
    }
}

/// Records the extents computed by [`layout_panel`] in the stand-in windows: entry `k`,
/// a copy of window `k` with its extent, is stored over the first window with the
/// same app id.
pub fn place_demo_entries(ws: &mut Vec<TrackedWindow>, extents: &Vec<(usize, usize)>)
    requires
        extents@.len() <= old(ws)@.len(),
    ensures
        panel_view(final(ws)@) == store_demo_all(panel_view(old(ws)@), panel_view(old(ws)@), extents@, extents@.len() as int),
{
    let ghost snap = panel_view(ws@);
    let mut copies: Vec<TrackedWindow> = Vec::new();
    let mut k: usize = 0;
    while k < extents.len()
        invariant
            k <= extents@.len(),
            extents@.len() <= ws@.len(),
            snap == panel_view(ws@),
            copies@.len() == k,
            forall|j: int| 0 <= j < k ==> (#[trigger] copies@[j])@ == (TrackedModel { x_start: extents@[j].0, x_end: extents@[j].1, ..snap[j] }),
        decreases extents@.len() - k,
    {
        let (a, b) = extents[k];
        assert(snap[k as int] == ws@[k as int]@);
        copies.push(with_extent(&ws[k], a, b));
        k += 1;
    }
    let mut k: usize = 0;
    while k < copies.len()
        invariant
            k <= copies@.len(),
            copies@.len() == extents@.len(),
            forall|j: int| 0 <= j < copies@.len() ==> (#[trigger] copies@[j])@ == (TrackedModel { x_start: extents@[j].0, x_end: extents@[j].1, ..snap[j] }),
            panel_view(ws@) == store_demo_all(snap, snap, extents@, k as int),
        decreases copies@.len() - k,
    {
        let w = with_extent(&copies[k], copies[k].x_start, copies[k].x_end);
        store_one(ws, w);
        k += 1;
    }
}

/// Colour of a window's square: bright orange for the active window, dark orange
/// otherwise (blue, green, red; alpha is left alone).
pub open spec fn square_color(active: bool) -> Seq<u8> {
    if active { seq![245u8, 160u8, 40u8, 0u8] } else { seq![180u8, 70u8, 10u8, 0u8] }
}

/// The square of an entry at `x` on a panel `h` high: vertically centred (rounding
/// towards zero), its rows above the panel cut off.
pub open spec fn square_rect(h: int, x: int) -> Rect {
    if h >= SQUARE_SIZE {
        Rect { x: x as usize, y: ((h - SQUARE_SIZE) / 2) as usize, w: 32, h: 32 }
    } else {
        Rect { x: x as usize, y: 0, w: 32, h: (SQUARE_SIZE - (SQUARE_SIZE - h) / 2) as usize }
    }
}

/// Paints the square of an entry starting at column `x`.
pub fn paint_square(canvas: &mut [u8], width: u32, height: u32, x: usize, active: bool)
    requires
        width * height * 4 <= old(canvas)@.len(),
    ensures
        final(canvas)@ == spec_fill(old(canvas)@, width as int, height as int, square_rect(height as int, x as int), square_color(active), 3),
{
    let h = height as usize;
    let r = if h >= SQUARE_SIZE {
        Rect { x: x, y: (h - SQUARE_SIZE) / 2, w: SQUARE_SIZE, h: SQUARE_SIZE }
    } else {
        Rect { x: x, y: 0, w: SQUARE_SIZE, h: SQUARE_SIZE - (SQUARE_SIZE - h) / 2 }
    };
    let color: [u8; 4] = if active { [245u8, 160u8, 40u8, 0u8] } else { [180u8, 70u8, 10u8, 0u8] };
    assert(color@ =~= square_color(active));
    fill_rect(canvas, width as usize, h, r, color, 3);
}

// ---------------------------------------------------------------------------
// Live windows
// ---------------------------------------------------------------------------

pub open spec fn live_view(v: Seq<TrackedEntry>) -> Seq<(u32, TrackedModel)> {
    v.map_values(|e: TrackedEntry| (e.id, e.window@))
}

/// Position of the first live entry with id `id`.
pub open spec fn live_position(s: Seq<(u32, TrackedModel)>, id: u32) -> Option<int> {
    if exists|i: int| 0 <= i < s.len() && #[trigger] s[i].0 == id {
        Some(choose|i: int| 0 <= i < s.len() && #[trigger] s[i].0 == id && forall|j: int| 0 <= j < i ==> s[j].0 != id)
    } else {
        None
    }
}

/// Index of the first live entry with id `id`.
fn find_live(v: &Vec<TrackedEntry>, id: u32) -> (r: Option<usize>)
    ensures
        match r {
            Some(i) => live_position(live_view(v@), id) == Some(i as int) && i < v@.len() && v@[i as int].id == id,
            None => live_position(live_view(v@), id) is None,
        },
{
    let ghost s = live_view(v@);
    let mut i: usize = 0;
    while i < v.len()
        invariant
            i <= v@.len(),
            s == live_view(v@),
            forall|j: int| 0 <= j < i ==> s[j].0 != id,
        decreases v@.len() - i,
    {
        assert(s[i as int].0 == v@[i as int].id);
        if v[i].id == id {
            proof {
                assert(s[i as int].0 == id && forall|j: int| 0 <= j < i ==> s[j].0 != id);
                let k = choose|k: int| 0 <= k < s.len() && #[trigger] s[k].0 == id && forall|j: int| 0 <= j < k ==> s[j].0 != id;
                if k > i {
                    assert(s[i as int].0 == id);
                }
                assert(k == i);
            }
            return Some(i);
        }
        i += 1;
    }
    None
}

/// A blank live window.
pub open spec fn blank_tracked() -> TrackedModel {
    TrackedModel { title: Seq::empty(), app_id: Seq::empty(), is_activated: false, is_minimized: false, x_start: 0, x_end: 0 }
}

/// The compositor announced toplevel `id`: it gets a blank entry, replacing any it had.
pub fn track_toplevel(v: &mut Vec<TrackedEntry>, id: u32)
    ensures
        live_view(final(v)@) == (match live_position(live_view(old(v)@), id) {
            Some(i) => live_view(old(v)@).update(i, (id, blank_tracked())),
            None => live_view(old(v)@).push((id, blank_tracked())),
        }),
{
    let ghost s = live_view(v@);
    let w = TrackedWindow {
        title: String::new(),
        app_id: String::new(),
        is_activated: false,
        is_minimized: false,
        x_start: 0,
        x_end: 0,
    };
    match find_live(v, id) {
        Some(i) => {
            v.remove(i);
            v.insert(i, TrackedEntry { id, window: w });
            assert(live_view(v@) =~= s.update(i as int, (id, blank_tracked())));
        },
        None => {
            v.push(TrackedEntry { id, window: w });
            assert(live_view(v@) =~= s.push((id, blank_tracked())));
        },
    }
}

/// The live entries after an event about toplevel `id`; nothing changes for an id
/// without an entry.
pub open spec fn spec_live_event(s: Seq<(u32, TrackedModel)>, id: u32, ev: crate::windows::ToplevelEvent) -> Seq<(u32, TrackedModel)> {
    match live_position(s, id) {
        None => s,
        Some(i) => match ev {
            crate::windows::ToplevelEvent::Title(t) => s.update(i, (id, TrackedModel { title: t@, ..s[i].1 })),
            crate::windows::ToplevelEvent::AppId(a) => s.update(i, (id, TrackedModel { app_id: a@, ..s[i].1 })),
            crate::windows::ToplevelEvent::State(b) => s,
            crate::windows::ToplevelEvent::Closed => s.remove(i),
            _ => s,
        },
    }
}

/// Applies an event about toplevel `id` to the live entries: a title or app id is
/// recorded, a state array sets the activation and minimization flags, `Closed`
/// removes the entry.  Returns whether the panel has to be redrawn (after `Closed`
/// and `Done`).  Events about an id without an entry change nothing.
pub fn live_event(v: &mut Vec<TrackedEntry>, id: u32, ev: crate::windows::ToplevelEvent) -> (redraw: bool)
    ensures
        ev !is State ==> live_view(final(v)@) == spec_live_event(live_view(old(v)@), id, ev),
        ev matches crate::windows::ToplevelEvent::State(b) ==> match live_position(live_view(old(v)@), id) {
            Some(i) => live_view(final(v)@) == live_view(old(v)@).update(i, (id, TrackedModel {
                    is_activated: crate::windows::spec_window_states(crate::windows::spec_state_words(b@)).0,
                    is_minimized: crate::windows::spec_window_states(crate::windows::spec_state_words(b@)).1,
                    ..live_view(old(v)@)[i].1
                })),
            None => final(v)@ == old(v)@,
        },
        redraw == (live_position(live_view(old(v)@), id) is Some && (ev is Closed || ev is Done)),
{
    let ghost s = live_view(v@);
    let i = match find_live(v, id) {
        Some(i) => i,
        None => return false,
    };
    match ev {
        crate::windows::ToplevelEvent::Title(t) => {
            let ghost tv = t@;
            let mut w = live_take(v, i);
            w.title = t;
            live_put(v, i, id, w);
            false
        },
        crate::windows::ToplevelEvent::AppId(a) => {
            let mut w = live_take(v, i);
            w.app_id = a;
            live_put(v, i, id, w);
            false
        },
        crate::windows::ToplevelEvent::State(b) => {
            let (activated, minimized) = crate::windows::parse_window_states(b.as_slice());
            let mut w = live_take(v, i);
            w.is_activated = activated;
            w.is_minimized = minimized;
            live_put(v, i, id, w);
            false
        },
        crate::windows::ToplevelEvent::Closed => {
            v.remove(i);
            assert(live_view(v@) =~= s.remove(i as int));
            true
        },
        crate::windows::ToplevelEvent::Done => true,
        crate::windows::ToplevelEvent::Other => false,
    }
}

/// A copy of the window of live entry `i`.
fn live_take(v: &Vec<TrackedEntry>, i: usize) -> (w: TrackedWindow)
    requires
        i < v@.len(),
    ensures
        w@ == v@[i as int].window@,
{
    let e = &v[i].window;
    TrackedWindow {
        title: e.title.clone(),
        app_id: e.app_id.clone(),
        is_activated: e.is_activated,
        is_minimized: e.is_minimized,
        x_start: e.x_start,
        x_end: e.x_end,
    }
}

/// Replaces live entry `i` by window `w` under id `id`.
fn live_put(v: &mut Vec<TrackedEntry>, i: usize, id: u32, w: TrackedWindow)
    requires
        i < old(v)@.len(),
    ensures
        live_view(final(v)@) == live_view(old(v)@).update(i as int, (id, w@)),
{
    let ghost s = live_view(v@);
    let ghost wv = w@;
    v.set(i, TrackedEntry { id, window: w });
    assert(live_view(v@) =~= s.update(i as int, (id, wv)));
}

} // verus!

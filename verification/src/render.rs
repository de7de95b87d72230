//! Painting the dock bar: the background, one slot per app with a placeholder or
//! an icon, the running indicators, and the context menu.
use vstd::prelude::*;
use crate::canvas::{Rect, fill_rect, spec_fill, paints, px_x, px_y, in_rect, lemma_px_inv};
use crate::layout::{
    BOX_SIZE, SPACING, DOCK_HEIGHT, seq_lt, strictly_sorted, str_views, views, chars_lt,
    lemma_lt_total, lemma_lt_trans, entries_model, sort_by_name, sorted_order, pick,
    slot_x, start_offset, start_offset_exec, add_keys, content_width, content_width_exec, contains_chars,
    lemma_add_keys_len,
};
use crate::text::{chars_of, chars_eq, string_of};
use crate::windows::{WindowEntry, WindowModel};

verus! {

/// Channel `k` of the dock bar's colour (opaque charcoal).
pub open spec fn dock_color(k: int) -> u8 {
    if k == 3 { 0xFF } else { 0x11 }
}

/// The canvas `c` of a `w` x `h` surface after clearing: transparent above the dock
/// bar, the bar's colour on its bottom `DOCK_HEIGHT` rows; bytes past the surface stay.
pub open spec fn spec_clear(c: Seq<u8>, w: int, h: int) -> Seq<u8> {
    Seq::new(c.len(), |i: int|
        if 0 <= i < w * h * 4 {
            if px_y(i, w) >= h - DOCK_HEIGHT { dock_color(i % 4) } else { 0u8 }
        } else {
            c[i]
        })
}

/// Clears the surface: transparent above the dock bar, dock colour on the bar.
pub fn clear_background(canvas: &mut [u8], width: u32, height: u32)
    requires
        height >= DOCK_HEIGHT,
        width * height * 4 <= old(canvas)@.len(),
    ensures
        final(canvas)@ == spec_clear(old(canvas)@, width as int, height as int),
{
    let ghost c0 = canvas@;
    let w = width as usize;
    let h = height as usize;
    let top = h - DOCK_HEIGHT as usize;
    let sky = Rect { x: 0, y: 0, w: w, h: top };
    let bar = Rect { x: 0, y: top, w: w, h: DOCK_HEIGHT as usize };
    fill_rect(canvas, w, h, sky, [0u8, 0u8, 0u8, 0u8], 4);
    let ghost c1 = canvas@;
    fill_rect(canvas, w, h, bar, [0x11u8, 0x11u8, 0x11u8, 0xFFu8], 4);
    proof {
        assert forall|i: int| 0 <= i < c0.len() implies #[trigger] canvas@[i] == spec_clear(c0, w as int, h as int)[i] by {
            if 0 <= i < w * h * 4 {
                lemma_px_inv(w as int, i);
                crate::canvas::lemma_px_lt(w as int, h as int, i);
            }
        }
        assert(canvas@ =~= spec_clear(c0, w as int, h as int));
    }
}

// ---------------------------------------------------------------------------
// Which apps get a slot, and in which order
// ---------------------------------------------------------------------------

/// `x` added to the ordered `s` at its place, unless it is there already.
pub open spec fn insert_sorted(s: Seq<Seq<char>>, x: Seq<char>) -> Seq<Seq<char>>
    decreases s.len(),
{
    if s.len() == 0 {
        seq![x]
    } else if seq_lt(s[0], x) {
        seq![s[0]] + insert_sorted(s.drop_first(), x)
    } else if s[0] == x {
        s
    } else {
        seq![x] + s
    }
}

/// App ids of the windows, in table order.
pub open spec fn app_ids(es: Seq<(u32, WindowModel)>) -> Seq<Seq<char>> {
    es.map_values(|e: (u32, WindowModel)| e.1.app_id)
}

/// The pinned apps that have no window, each once, in string order.
pub open spec fn idle_pins(pinned: Seq<Seq<char>>, running: Seq<Seq<char>>) -> Seq<Seq<char>>
    decreases pinned.len(),
{
    if pinned.len() == 0 {
        Seq::empty()
    } else {
        let r = idle_pins(pinned.drop_last(), running);
        if running.contains(pinned.last()) {
            r
        } else {
            insert_sorted(r, pinned.last())
        }
    }
}

/// Adding to an ordered list keeps it ordered and adds exactly `x`.
pub proof fn lemma_insert_sorted(s: Seq<Seq<char>>, x: Seq<char>)
    requires
        strictly_sorted(s),
    ensures
        strictly_sorted(insert_sorted(s, x)),
        forall|a: Seq<char>| #[trigger] insert_sorted(s, x).contains(a) <==> (s.contains(a) || a == x),
    decreases s.len(),
{
    let r = insert_sorted(s, x);
    if s.len() == 0 {
        assert(r =~= seq![x]);
        assert(r[0] == x);
    } else if seq_lt(s[0], x) {
        let d = s.drop_first();
        assert forall|i: int, j: int| 0 <= i < j < d.len() implies seq_lt(#[trigger] d[i], #[trigger] d[j]) by {
            assert(d[i] == s[i + 1] && d[j] == s[j + 1]);
        }
        lemma_insert_sorted(d, x);
        let t = insert_sorted(d, x);
        assert(r =~= seq![s[0]] + t);
        assert forall|k: int| 0 <= k < t.len() implies seq_lt(s[0], #[trigger] t[k]) by {
            assert(t.contains(t[k]));
            if t[k] != x {
                let m = choose|m: int| 0 <= m < d.len() && d[m] == t[k];
                assert(s[m + 1] == d[m]);
            }
        }
        assert forall|i: int, j: int| 0 <= i < j < r.len() implies seq_lt(#[trigger] r[i], #[trigger] r[j]) by {
            if i == 0 {
                assert(r[j] == t[j - 1]);
            } else {
                assert(r[i] == t[i - 1] && r[j] == t[j - 1]);
            }
        }
        assert forall|a: Seq<char>| #[trigger] r.contains(a) <==> (s.contains(a) || a == x) by {
            if r.contains(a) {
                let k = choose|k: int| 0 <= k < r.len() && r[k] == a;
                if k > 0 {
                    assert(t[k - 1] == a);
                    assert(t.contains(a));
                    if a != x {
                        let m = choose|m: int| 0 <= m < d.len() && d[m] == a;
                        assert(s[m + 1] == a);
                    }
                } else {
                    assert(s[0] == a);
                }
            }
            if s.contains(a) {
                let k = choose|k: int| 0 <= k < s.len() && s[k] == a;
                if k > 0 {
                    assert(d[k - 1] == a);
                    assert(d.contains(a));
                    assert(t.contains(a));
                    let m = choose|m: int| 0 <= m < t.len() && t[m] == a;
                    assert(r[m + 1] == a);
                } else {
                    assert(r[0] == a);
                }
            }
            if a == x {
                assert(t.contains(a));
                let m = choose|m: int| 0 <= m < t.len() && t[m] == a;
                assert(r[m + 1] == a);
            }
        }
    } else if s[0] == x {
        assert(s.contains(s[0]));
    } else {
        lemma_lt_total(s[0], x);
        assert(r =~= seq![x] + s);
        assert forall|i: int, j: int| 0 <= i < j < r.len() implies seq_lt(#[trigger] r[i], #[trigger] r[j]) by {
            assert(r[j] == s[j - 1]);
            if i == 0 {
                if j > 1 {
                    assert(seq_lt(s[0], s[j - 1]));
                    lemma_lt_trans(x, s[0], s[j - 1]);
                }
            } else {
                assert(r[i] == s[i - 1]);
            }
        }
        assert forall|a: Seq<char>| #[trigger] r.contains(a) <==> (s.contains(a) || a == x) by {
            if r.contains(a) {
                let k = choose|k: int| 0 <= k < r.len() && r[k] == a;
                if k > 0 {
                    assert(s[k - 1] == a);
                }
            }
            if s.contains(a) {
                let k = choose|k: int| 0 <= k < s.len() && s[k] == a;
                assert(r[k + 1] == a);
            }
            if a == x {
                assert(r[0] == a);
            }
        }
    }
}

/// The idle pins come in strict string order (so each once), and they are exactly
/// the pinned apps that no window belongs to.
pub proof fn lemma_idle_pins(pinned: Seq<Seq<char>>, running: Seq<Seq<char>>)
    ensures
        strictly_sorted(idle_pins(pinned, running)),
        forall|a: Seq<char>| #[trigger] idle_pins(pinned, running).contains(a) <==> (pinned.contains(a) && !running.contains(a)),
    decreases pinned.len(),
{
    if pinned.len() > 0 {
        let p = pinned.drop_last();
        lemma_idle_pins(p, running);
        let r = idle_pins(p, running);
        if !running.contains(pinned.last()) {
            lemma_insert_sorted(r, pinned.last());
        }
        assert forall|a: Seq<char>| #[trigger] idle_pins(pinned, running).contains(a) <==> (pinned.contains(a) && !running.contains(a)) by {
            if pinned.contains(a) {
                let k = choose|k: int| 0 <= k < pinned.len() && pinned[k] == a;
                if k < p.len() {
                    assert(p[k] == a);
                }
            }
            if p.contains(a) {
                let k = choose|k: int| 0 <= k < p.len() && p[k] == a;
                assert(pinned[k] == a);
            }
        }
    }
}

/// Where `insert_sorted` puts `x`: after the entries that come before it.
proof fn lemma_insert_sorted_at(s: Seq<Seq<char>>, x: Seq<char>, p: int)
    requires
        0 <= p <= s.len(),
        forall|j: int| 0 <= j < p ==> seq_lt(#[trigger] s[j], x),
        p < s.len() ==> !seq_lt(s[p], x),
    ensures
        insert_sorted(s, x) == (if p < s.len() && s[p] == x { s } else { s.insert(p, x) }),
    decreases p,
{
    if p == 0 {
        if s.len() == 0 {
            assert(s.insert(0, x) =~= seq![x]);
        } else {
            assert(s.insert(0, x) =~= seq![x] + s);
        }
    } else {
        let t = s.drop_first();
        assert forall|j: int| 0 <= j < p - 1 implies seq_lt(#[trigger] t[j], x) by {
            assert(t[j] == s[j + 1]);
        }
        if p - 1 < t.len() {
            assert(t[p - 1] == s[p]);
        }
        lemma_insert_sorted_at(t, x, p - 1);
        assert(seq![s[0]] + t =~= s);
        assert(seq![s[0]] + t.insert(p - 1, x) =~= s.insert(p, x));
    }
}

/// Adds `x` to the ordered list `v` at its place, unless it is there already.
fn insert_sorted_exec(v: &mut Vec<Vec<char>>, x: Vec<char>)
    ensures
        views(final(v)@) == insert_sorted(views(old(v)@), x@),
{
    let ghost s = views(v@);
    let mut p: usize = 0;
    while p < v.len() && chars_lt(&v[p], &x)
        invariant
            p <= v@.len(),
            s == views(v@),
            forall|j: int| 0 <= j < p ==> seq_lt(#[trigger] s[j], x@),
        decreases v@.len() - p,
    {
        assert(s[p as int] == v@[p as int]@);
        p += 1;
    }
    if p < v.len() {
        assert(s[p as int] == v@[p as int]@);
    }
    proof { lemma_insert_sorted_at(s, x@, p as int); }
    if p < v.len() && chars_eq(&v[p], &x) {
        return;
    }
    let ghost xv = x@;
    v.insert(p, x);
    assert(views(v@) =~= s.insert(p as int, xv));
}

/// Whether some window has the app id `a`.
fn has_app_id(ws: &Vec<WindowEntry>, a: &Vec<char>) -> (r: bool)
    ensures
        r == app_ids(entries_model(ws@)).contains(a@),
{
    let ghost ids = app_ids(entries_model(ws@));
    let mut k: usize = 0;
    while k < ws.len()
        invariant
            k <= ws@.len(),
            ids == app_ids(entries_model(ws@)),
            forall|j: int| 0 <= j < k ==> ids[j] != a@,
        decreases ws@.len() - k,
    {
        let c = chars_of(ws[k].info.app_id.as_str());
        assert(ids[k as int] == c@);
        if chars_eq(&c, a) {
            return true;
        }
        k += 1;
    }
    false
}

/// The pinned apps that have no window, each once, in string order.
pub fn pinned_not_running(pinned: &Vec<String>, ws: &Vec<WindowEntry>) -> (r: Vec<String>)
    ensures
        str_views(r@) == idle_pins(str_views(pinned@), app_ids(entries_model(ws@))),
{
    let ghost ps = str_views(pinned@);
    let ghost run = app_ids(entries_model(ws@));
    let mut acc: Vec<Vec<char>> = Vec::new();
    let mut i: usize = 0;
    while i < pinned.len()
        invariant
            i <= pinned@.len(),
            ps == str_views(pinned@),
            run == app_ids(entries_model(ws@)),
            views(acc@) == idle_pins(ps.take(i as int), run),
        decreases pinned@.len() - i,
    {
        let c = chars_of(pinned[i].as_str());
        proof {
            assert(ps.take(i + 1).drop_last() =~= ps.take(i as int));
            assert(ps.take(i + 1).last() == c@);
        }
        if !has_app_id(ws, &c) {
            insert_sorted_exec(&mut acc, c);
        }
        i += 1;
    }
    assert(ps.take(pinned@.len() as int) =~= ps);
    let mut r: Vec<String> = Vec::new();
    let mut k: usize = 0;
    while k < acc.len()
        invariant
            k <= acc@.len(),
            str_views(r@) == views(acc@).take(k as int),
        decreases acc@.len() - k,
    {
        let s = string_of(acc[k].as_slice());
        assert(s@ == views(acc@)[k as int]);
        let ghost before = r@;
        let ghost sv = s@;
        r.push(s);
        assert(str_views(r@) =~= str_views(before).push(sv));
        assert(str_views(r@) =~= views(acc@).take(k + 1));
        k += 1;
    }
    assert(views(acc@).take(acc@.len() as int) =~= views(acc@));
    r
}

/// One slot of the dock as it is painted.
pub struct DockItem {
    pub app_id: String,
    /// The window the slot stands for; `None` for a pinned app without a window.
    pub window: Option<u32>,
    pub is_activated: bool,
    pub is_running: bool,
    /// Whether an icon image is at hand for the slot (else a placeholder is painted).
    pub has_icon: bool,
}

pub struct ItemModel {
    pub app_id: Seq<char>,
    pub window: Option<u32>,
    pub is_activated: bool,
    pub is_running: bool,
    pub has_icon: bool,
}

impl View for DockItem {
    type V = ItemModel;

    open spec fn view(&self) -> ItemModel {
        ItemModel {
            app_id: self.app_id@,
            window: self.window,
            is_activated: self.is_activated,
            is_running: self.is_running,
            has_icon: self.has_icon,
        }
    }
}

pub open spec fn items_view(v: Seq<DockItem>) -> Seq<ItemModel> {
    v.map_values(|d: DockItem| d@)
}

/// The slot of a pinned app without a window.
pub open spec fn idle_item(a: Seq<char>, cached: Seq<Seq<char>>) -> ItemModel {
    ItemModel { app_id: a, window: None, is_activated: false, is_running: false, has_icon: cached.contains(a) }
}

/// The slot of a window.
pub open spec fn window_item(e: (u32, WindowModel)) -> ItemModel {
    ItemModel {
        app_id: e.1.app_id,
        window: Some(e.0),
        is_activated: e.1.is_activated,
        is_running: true,
        has_icon: e.1.icon_rgba is Some,
    }
}

/// The slots, left to right: the idle pins in string order, then every window in
/// app-name order.  `cached` lists the apps whose icon is in the icon cache.
pub open spec fn spec_dock_items(pinned: Seq<Seq<char>>, es: Seq<(u32, WindowModel)>, cached: Seq<Seq<char>>) -> Seq<ItemModel> {
    idle_pins(pinned, app_ids(es)).map_values(|a: Seq<char>| idle_item(a, cached))
        + sort_by_name(es).map_values(|e: (u32, WindowModel)| window_item(e))
}

/// Whether `a` is among `v`.
fn contains_str(v: &Vec<String>, a: &Vec<char>) -> (r: bool)
    ensures
        r == str_views(v@).contains(a@),
{
    let mut k: usize = 0;
    while k < v.len()
        invariant
            k <= v@.len(),
            forall|j: int| 0 <= j < k ==> str_views(v@)[j] != a@,
        decreases v@.len() - k,
    {
        let c = chars_of(v[k].as_str());
        assert(str_views(v@)[k as int] == c@);
        if chars_eq(&c, a) {
            return true;
        }
        k += 1;
    }
    false
}

/// The slots of the dock, left to right.  `cached` lists the apps whose icon is in
/// the icon cache.
pub fn dock_items(pinned: &Vec<String>, ws: &Vec<WindowEntry>, cached: &Vec<String>) -> (r: Vec<DockItem>)
    ensures
        items_view(r@) == spec_dock_items(str_views(pinned@), entries_model(ws@), str_views(cached@)),
{
    let ghost es = entries_model(ws@);
    let ghost cv = str_views(cached@);
    let idle = pinned_not_running(pinned, ws);
    let ghost iv = str_views(idle@);
    let ghost head = iv.map_values(|a: Seq<char>| idle_item(a, cv));
    let mut r: Vec<DockItem> = Vec::new();
    let mut i: usize = 0;
    while i < idle.len()
        invariant
            i <= idle@.len(),
            iv == str_views(idle@),
            cv == str_views(cached@),
            head == iv.map_values(|a: Seq<char>| idle_item(a, cv)),
            items_view(r@) == head.take(i as int),
        decreases idle@.len() - i,
    {
        let c = chars_of(idle[i].as_str());
        let has = contains_str(cached, &c);
        let item = DockItem { app_id: idle[i].clone(), window: None, is_activated: false, is_running: false, has_icon: has };
        assert(item@ == head[i as int]);
        let ghost before = r@;
        r.push(item);
        assert(items_view(r@) =~= items_view(before).push(head[i as int]));
        assert(items_view(r@) =~= head.take(i + 1));
        i += 1;
    }
    assert(head.take(idle@.len() as int) =~= head);
    let ghost so = sort_by_name(es);
    let ghost tail = so.map_values(|e: (u32, WindowModel)| window_item(e));
    let order = sorted_order(ws);
    proof { crate::layout::lemma_sort_len(es); }
    let mut k: usize = 0;
    while k < order.len()
        invariant
            k <= order@.len(),
            order@.len() == ws@.len(),
            es == entries_model(ws@),
            so == sort_by_name(es),
            so.len() == es.len(),
            pick(es, order@) == so,
            forall|j: int| 0 <= j < order@.len() ==> #[trigger] order@[j] < ws@.len(),
            tail == so.map_values(|e: (u32, WindowModel)| window_item(e)),
            items_view(r@) == head + tail.take(k as int),
        decreases order@.len() - k,
    {
        let pos = order[k];
        assert(so[k as int] == es[pos as int]);
        let w = &ws[pos];
        let item = DockItem {
            app_id: w.info.app_id.clone(),
            window: Some(w.id),
            is_activated: w.info.is_activated,
            is_running: true,
            has_icon: w.info.icon_rgba.is_some(),
        };
        assert(item@ == tail[k as int]);
        let ghost before = r@;
        r.push(item);
        assert(items_view(r@) =~= items_view(before).push(tail[k as int]));
        assert(items_view(r@) =~= head + tail.take(k + 1));
        k += 1;
    }
    assert(tail.take(order@.len() as int) =~= tail);
    r
}

// ---------------------------------------------------------------------------
// Painting the slots
// ---------------------------------------------------------------------------

/// Top edge of the icons: centred on the dock bar of a surface `h` high.
pub open spec fn icon_top(h: int) -> int {
    h - DOCK_HEIGHT + (DOCK_HEIGHT - BOX_SIZE) / 2
}

/// Slot `i` lies wholly within a surface `width` wide.
pub open spec fn slot_fits(offset: int, width: int, i: int) -> bool {
    slot_x(offset, i) + BOX_SIZE <= width
}

/// Colour of the placeholder painted where an icon is missing.
pub open spec fn placeholder_color() -> Seq<u8> {
    seq![0x55u8, 0x55u8, 0x55u8, 0xFFu8]
}

/// Width of the running indicator under an icon: long for the active window.
pub open spec fn indicator_width(active: bool) -> int {
    if active { 32 } else { 8 }
}

/// The running indicator: a one-pixel line centred under the icon, four pixels below it.
pub open spec fn indicator_rect(active: bool, sx: int, sy: int) -> Rect {
    Rect {
        x: (sx + (BOX_SIZE - indicator_width(active)) / 2) as usize,
        y: (sy + BOX_SIZE + 4) as usize,
        w: indicator_width(active) as usize,
        h: 1,
    }
}

/// Colour of the running indicator: white for the active window, grey otherwise.
pub open spec fn indicator_color(active: bool) -> Seq<u8> {
    let b: u8 = if active { 0xFF } else { 0x66 };
    seq![b, b, b, 0xFFu8]
}

/// The canvas after painting one slot at `(sx, sy)`: a placeholder if it has no
/// icon, then the running indicator if it stands for a window.
pub open spec fn paint_item(c: Seq<u8>, w: int, h: int, it: ItemModel, sx: int, sy: int) -> Seq<u8> {
    let c1 = if it.has_icon {
        c
    } else {
        spec_fill(c, w, h, Rect { x: sx as usize, y: sy as usize, w: 48, h: 48 }, placeholder_color(), 4)
    };
    if it.is_running {
        spec_fill(c1, w, h, indicator_rect(it.is_activated, sx, sy), indicator_color(it.is_activated), 4)
    } else {
        c1
    }
}

/// The canvas after painting the first `k` slots.
pub open spec fn paint_items(c: Seq<u8>, w: int, h: int, items: Seq<ItemModel>, offset: int, k: int) -> Seq<u8>
    decreases k,
{
    if k <= 0 {
        c
    } else {
        paint_item(paint_items(c, w, h, items, offset, k - 1), w, h, items[k - 1], slot_x(offset, k - 1), icon_top(h))
    }
}

/// Slot index and left edge of each of the first `k` slots that shows an icon image.
pub open spec fn icon_blits(items: Seq<ItemModel>, offset: int, k: int) -> Seq<(usize, usize)>
    decreases k,
{
    if k <= 0 {
        Seq::empty()
    } else {
        let r = icon_blits(items, offset, k - 1);
        if items[k - 1].has_icon {
            r.push(((k - 1) as usize, slot_x(offset, k - 1) as usize))
        } else {
            r
        }
    }
}

/// How many of `n` slots fit, from the left, on a surface `width` wide.
fn shown_slots(offset: usize, width: u32, n: usize) -> (k: usize)
    requires
        offset + 60 * (n + 1) <= usize::MAX,
    ensures
        k <= n,
        forall|j: int| 0 <= j < k ==> slot_fits(offset as int, width as int, j),
        k < n ==> !slot_fits(offset as int, width as int, k as int),
{
    let mut k: usize = 0;
    while k < n
        invariant
            k <= n,
            offset + 60 * (n + 1) <= usize::MAX,
            forall|j: int| 0 <= j < k ==> slot_fits(offset as int, width as int, j),
        decreases n - k,
    {
        assert(offset + 12 + k * 60 + 48 <= offset + 60 * (n + 1)) by (nonlinear_arith)
            requires
                k < n,
        ;
        if offset + SPACING + k * (BOX_SIZE + SPACING) + BOX_SIZE > width as usize {
            return k;
        }
        k += 1;
    }
    k
}

/// Paints the slots that fit on the surface, left to right: a placeholder for each
/// slot without an icon image and an indicator under each window.  Returns how many
/// slots fit and, for each of them that has an icon image, its index and left edge:
/// the caller blends those images in (see [`icon_samples`]).
pub fn paint_dock(canvas: &mut [u8], width: u32, height: u32, items: &Vec<DockItem>) -> (r: (usize, Vec<(usize, usize)>))
    requires
        height >= DOCK_HEIGHT,
        width * height * 4 <= old(canvas)@.len(),
        width + 60 * (items@.len() + 1) <= usize::MAX,
    ensures
        r.0 <= items@.len(),
        forall|j: int| 0 <= j < r.0 ==> slot_fits(start_offset(width as int, items@.len() as int), width as int, j),
        r.0 < items@.len() ==> !slot_fits(start_offset(width as int, items@.len() as int), width as int, r.0 as int),
        final(canvas)@ == paint_items(old(canvas)@, width as int, height as int, items_view(items@),
            start_offset(width as int, items@.len() as int), r.0 as int),
        r.1@ == icon_blits(items_view(items@), start_offset(width as int, items@.len() as int), r.0 as int),
{
    let ghost c0 = canvas@;
    let ghost iv = items_view(items@);
    let n = items.len();
    let offset = start_offset_exec(width, n);
    proof { crate::layout::lemma_offset_bound(width as int, n as int); }
    let shown = shown_slots(offset, width, n);
    let w = width as usize;
    let h = height as usize;
    let top = h - 60 + 6;
    let mut blits: Vec<(usize, usize)> = Vec::new();
    let mut i: usize = 0;
    while i < shown
        invariant
            i <= shown <= n,
            n == items@.len(),
            iv == items_view(items@),
            w == width,
            h == height,
            h >= 60,
            top == icon_top(h as int),
            w * h * 4 <= canvas@.len(),
            offset == start_offset(width as int, n as int),
            forall|j: int| 0 <= j < shown ==> slot_fits(offset as int, width as int, j),
            canvas@ == paint_items(c0, w as int, h as int, iv, offset as int, i as int),
            blits@ == icon_blits(iv, offset as int, i as int),
        decreases shown - i,
    {
        assert(slot_fits(offset as int, width as int, i as int));
        let sx = offset + SPACING + i * (BOX_SIZE + SPACING);
        let it = &items[i];
        assert(iv[i as int] == it@);
        let ghost before = canvas@;
        if it.has_icon {
            blits.push((i, sx));
        } else {
            fill_rect(canvas, w, h, Rect { x: sx, y: top, w: 48, h: 48 }, [0x55u8, 0x55u8, 0x55u8, 0xFFu8], 4);
            assert([0x55u8, 0x55u8, 0x55u8, 0xFFu8]@ =~= placeholder_color());
        }
        if it.is_running {
            let iw: usize = if it.is_activated { 32 } else { 8 };
            let b: u8 = if it.is_activated { 0xFF } else { 0x66 };
            let ghost color = [b, b, b, 0xFFu8]@;
            assert(color =~= indicator_color(it.is_activated));
            fill_rect(canvas, w, h, Rect { x: sx + (48 - iw) / 2, y: top + 52, w: iw, h: 1 }, [b, b, b, 0xFFu8], 4);
        }
        assert(canvas@ == paint_item(before, w as int, h as int, iv[i as int], sx as int, top as int));
        i += 1;
    }
    (shown, blits)
}

// ---------------------------------------------------------------------------
// Scaling an icon image into its slot
// ---------------------------------------------------------------------------

/// Where pixel `(x, y)` of a slot at `(sx, sy)` takes its colour from in a square
/// icon image `img` pixels wide stored in `len` bytes: `Some((canvas byte, image
/// byte))` of the pixel's first channel, or `None` where the image has no such
/// pixel or the slot pixel lies off the `w` x `h` surface.
pub open spec fn sample(sx: int, sy: int, w: int, h: int, img: int, len: int, x: int, y: int) -> Option<(usize, usize)> {
    let src_x = (x * img) / BOX_SIZE as int;
    let src_y = (y * img) / BOX_SIZE as int;
    let src = (src_y * img + src_x) * 4;
    if src + 3 < len && sx + x < w && sy + y < h {
        Some(((((sy + y) * w + (sx + x)) * 4) as usize, src as usize))
    } else {
        None
    }
}

/// The samples of the first `n` pixels of row `y` of the slot.
pub open spec fn sample_row(sx: int, sy: int, w: int, h: int, img: int, len: int, y: int, n: int) -> Seq<(usize, usize)>
    decreases n,
{
    if n <= 0 {
        Seq::empty()
    } else {
        let r = sample_row(sx, sy, w, h, img, len, y, n - 1);
        match sample(sx, sy, w, h, img, len, n - 1, y) {
            Some(p) => r.push(p),
            None => r,
        }
    }
}

/// The samples of the first `n` rows of the slot, row by row.
pub open spec fn sample_rows(sx: int, sy: int, w: int, h: int, img: int, len: int, n: int) -> Seq<(usize, usize)>
    decreases n,
{
    if n <= 0 {
        Seq::empty()
    } else {
        sample_rows(sx, sy, w, h, img, len, n - 1) + sample_row(sx, sy, w, h, img, len, n - 1, BOX_SIZE as int)
    }
}

/// The pixels of the slot at `(sx, sy)` that an icon image `img_size` pixels wide
/// (stored in `len` bytes) covers, row by row: for each, the canvas byte and the
/// image byte of its first channel.  The image is scaled to the slot by nearest
/// neighbour; pixels off the surface or past the image's bytes are left out.
pub fn icon_samples(sx: usize, sy: usize, width: u32, height: u32, img_size: u32, len: usize) -> (r: Vec<(usize, usize)>)
    requires
        4 * img_size * img_size + 4 <= usize::MAX,
        sx + BOX_SIZE <= usize::MAX,
        sy + BOX_SIZE <= usize::MAX,
        width * height * 4 <= usize::MAX,
    ensures
        r@ == sample_rows(sx as int, sy as int, width as int, height as int, img_size as int, len as int, BOX_SIZE as int),
{
    let w = width as usize;
    let h = height as usize;
    let img = img_size as usize;
    let mut out: Vec<(usize, usize)> = Vec::new();
    let mut y: usize = 0;
    while y < BOX_SIZE
        invariant
            y <= BOX_SIZE,
            w == width,
            h == height,
            img == img_size,
            4 * img * img + 4 <= usize::MAX,
            sx + BOX_SIZE <= usize::MAX,
            sy + BOX_SIZE <= usize::MAX,
            w * h * 4 <= usize::MAX,
            out@ == sample_rows(sx as int, sy as int, w as int, h as int, img as int, len as int, y as int),
        decreases BOX_SIZE - y,
    {
        let ghost base = out@;
        let mut x: usize = 0;
        while x < BOX_SIZE
            invariant
                x <= BOX_SIZE,
                y < BOX_SIZE,
                w == width,
                h == height,
                img == img_size,
                4 * img * img + 4 <= usize::MAX,
                sx + BOX_SIZE <= usize::MAX,
                sy + BOX_SIZE <= usize::MAX,
                w * h * 4 <= usize::MAX,
                base == sample_rows(sx as int, sy as int, w as int, h as int, img as int, len as int, y as int),
                out@ == base + sample_row(sx as int, sy as int, w as int, h as int, img as int, len as int, y as int, x as int),
            decreases BOX_SIZE - x,
        {
            assert(x * img <= 47 * img && y * img <= 47 * img && 47 * img <= usize::MAX) by (nonlinear_arith)
                requires
                    x < 48,
                    y < 48,
                    4 * img * img + 4 <= usize::MAX,
            ;
            let src_x = (x * img) / BOX_SIZE;
            let src_y = (y * img) / BOX_SIZE;
            assert(src_x <= img && src_y <= img);
            assert(src_y * img + src_x <= img * img + img) by (nonlinear_arith)
                requires
                    src_y <= img,
                    src_x <= img,
            ;
            assert((src_y * img + src_x) * 4 + 3 <= usize::MAX) by (nonlinear_arith)
                requires
                    src_y * img + src_x <= img * img + img,
                    4 * img * img + 4 <= usize::MAX,
                    src_x * 48 <= x * img,
                    x < 48,
            ;
            let src = (src_y * img + src_x) * 4;
            let cx = sx + x;
            let cy = sy + y;
            let ghost before = out@;
            if src + 3 < len && cx < w && cy < h {
                assert((cy * w + cx) * 4 < w * h * 4) by (nonlinear_arith)
                    requires
                        cx < w,
                        cy < h,
                ;
                out.push(((cy * w + cx) * 4, src));
            }
            assert(out@ =~= base + sample_row(sx as int, sy as int, w as int, h as int, img as int, len as int, y as int, x + 1));
            x += 1;
        }
        assert(out@ =~= sample_rows(sx as int, sy as int, w as int, h as int, img as int, len as int, y + 1));
        y += 1;
    }
    out
}

// ---------------------------------------------------------------------------
// The context menu
// ---------------------------------------------------------------------------

/// Width of the painted context menu.
pub const MENU_BOX_WIDTH: usize = 120;
/// Height of the painted context menu: three rows of 30 pixels.
pub const MENU_BOX_HEIGHT: usize = 90;

/// Where the context menu opened at `(mx, my)` is painted: its bottom edge at `my`,
/// pushed left so that it stays on a surface `width` wide.
pub open spec fn menu_box(width: int, mx: int, my: int) -> Rect {
    Rect {
        x: (if mx <= width - 120 { mx } else { width - 120 }) as usize,
        y: (if my >= 90 { my - 90 } else { 0 }) as usize,
        w: 120,
        h: 90,
    }
}

/// A one-pixel separator line across the menu, `dy` pixels below its top.
pub open spec fn menu_line(b: Rect, dy: int) -> Rect {
    Rect { x: b.x, y: (b.y + dy) as usize, w: 120, h: 1 }
}

pub open spec fn menu_color() -> Seq<u8> {
    seq![0x22u8, 0x22u8, 0x22u8, 0xFFu8]
}

/// Colour of the separators; only the first three channels are painted.
pub open spec fn separator_color() -> Seq<u8> {
    seq![0x44u8, 0x44u8, 0x44u8, 0u8]
}

/// The canvas after painting the context menu, if it is open: a dark box with two
/// separator lines between its three rows (alpha of the lines left as it was).
pub open spec fn spec_paint_menu(c: Seq<u8>, w: int, h: int, open: bool, mx: int, my: int) -> Seq<u8> {
    if !open {
        c
    } else {
        let b = menu_box(w, mx, my);
        let c1 = spec_fill(c, w, h, b, menu_color(), 4);
        let c2 = spec_fill(c1, w, h, menu_line(b, 30), separator_color(), 3);
        spec_fill(c2, w, h, menu_line(b, 60), separator_color(), 3)
    }
}

/// Paints the context menu of `menu` if it is open.
pub fn paint_context_menu(canvas: &mut [u8], width: u32, height: u32, menu: &crate::dock::MenuState)
    requires
        width * height * 4 <= old(canvas)@.len(),
        menu.is_open ==> width >= MENU_BOX_WIDTH,
    ensures
        final(canvas)@ == spec_paint_menu(old(canvas)@, width as int, height as int, menu.is_open, menu.x as int, menu.y as int),
{
    if !menu.is_open {
        return;
    }
    let w = width as usize;
    let h = height as usize;
    let mx = if menu.x <= w - MENU_BOX_WIDTH { menu.x } else { w - MENU_BOX_WIDTH };
    let my = if menu.y >= MENU_BOX_HEIGHT { menu.y - MENU_BOX_HEIGHT } else { 0 };
    let b = Rect { x: mx, y: my, w: MENU_BOX_WIDTH, h: MENU_BOX_HEIGHT };
    assert(b == menu_box(w as int, menu.x as int, menu.y as int));
    fill_rect(canvas, w, h, b, [0x22u8, 0x22u8, 0x22u8, 0xFFu8], 4);
    assert([0x22u8, 0x22u8, 0x22u8, 0xFFu8]@ =~= menu_color());
    assert([0x44u8, 0x44u8, 0x44u8, 0u8]@ =~= separator_color());
    let first = Rect { x: mx, y: my + 30, w: MENU_BOX_WIDTH, h: 1 };
    assert(first == menu_line(b, 30));
    fill_rect(canvas, w, h, first, [0x44u8, 0x44u8, 0x44u8, 0u8], 3);
    let second = Rect { x: mx, y: my + 60, w: MENU_BOX_WIDTH, h: 1 };
    assert(second == menu_line(b, 60));
    fill_rect(canvas, w, h, second, [0x44u8, 0x44u8, 0x44u8, 0u8], 3);
}

// ---------------------------------------------------------------------------
// Outline boxes
// ---------------------------------------------------------------------------

/// `(x, y)` lies on the border of the box spanning columns `xs..=xe` and rows `ys..=ye`.
pub open spec fn box_edge(xs: int, xe: int, ys: int, ye: int, x: int, y: int) -> bool {
    xs <= x <= xe && ys <= y <= ye && (x == xs || x == xe || y == ys || y == ye)
}

/// Byte `i` is one of the four bytes of pixel `(x, y)` of a frame `w` pixels wide,
/// and the whole pixel lies within the `len` bytes of the frame.
pub open spec fn pixel_byte(w: int, len: int, x: int, y: int, i: int) -> bool {
    let p = (y * w + x) * 4;
    p + 3 < len && p <= i < p + 4
}

/// Byte `i` belongs to a border pixel of the box.
pub open spec fn box_covers(w: int, len: int, xs: int, xe: int, ys: int, ye: int, i: int) -> bool {
    exists|x: int, y: int| box_edge(xs, xe, ys, ye, x, y) && #[trigger] pixel_byte(w, len, x, y, i)
}

/// Colour of the outline.
pub open spec fn outline_color(k: int) -> u8 {
    if k == 0 { 255 } else if k == 1 { 100 } else if k == 2 { 0 } else { 255 }
}

/// The border pixels of the box visited so far: rows before `y0`, and on row `y0`
/// the columns before `x0`.
pub open spec fn box_covers_upto(w: int, len: int, xs: int, xe: int, ys: int, ye: int, y0: int, x0: int, i: int) -> bool {
    exists|x: int, y: int| box_edge(xs, xe, ys, ye, x, y) && (y < y0 || (y == y0 && x < x0)) && #[trigger] pixel_byte(w, len, x, y, i)
}

/// Draws the outline of the box spanning columns `x_start..=x_end` and rows
/// `y_start..=y_end` in neon blue into `frame`, a frame `frame_width` pixels wide;
/// pixels that do not lie wholly within `frame` are skipped.
pub fn draw_blue_box(frame: &mut [u8], frame_width: usize, x_start: usize, x_end: usize, y_start: usize, y_end: usize)
    requires
        (y_end * frame_width + x_end) * 4 + 3 <= usize::MAX,
    ensures
        final(frame)@.len() == old(frame)@.len(),
        forall|i: int| 0 <= i < old(frame)@.len() ==> #[trigger] final(frame)@[i] == (if box_covers(frame_width as int,
            old(frame)@.len() as int, x_start as int, x_end as int, y_start as int, y_end as int, i) {
            outline_color(i % 4)
        } else {
            old(frame)@[i]
        }),
{
    let ghost f0 = frame@;
    let ghost n = f0.len() as int;
    let ghost w = frame_width as int;
    let ghost xs = x_start as int;
    let ghost xe = x_end as int;
    let ghost ys = y_start as int;
    let ghost ye = y_end as int;
    let blue: [u8; 4] = [255, 100, 0, 255];
    assert(0 <= y_end * frame_width) by (nonlinear_arith);
    assert(y_end <= y_end * frame_width || frame_width == 0) by (nonlinear_arith);
    let ghost mut yd: int = ys;
    if y_start <= y_end {
        let mut y = y_start;
        loop
            invariant_except_break
                frame@.len() == n,
                n == f0.len(),
                w == frame_width && xs == x_start && xe == x_end && ys == y_start && ye == y_end,
                y_start <= y <= y_end,
                x_end < usize::MAX,
                (y_end * frame_width + x_end) * 4 + 3 <= usize::MAX,
                blue@ == seq![255u8, 100u8, 0u8, 255u8],
                forall|i: int| 0 <= i < n ==> #[trigger] frame@[i] == (if box_covers_upto(w, n, xs, xe, ys, ye, y as int, xs, i) {
                    outline_color(i % 4)
                } else {
                    f0[i]
                }),
            ensures
                frame@.len() == n,
                forall|i: int| 0 <= i < n ==> #[trigger] frame@[i] == (if box_covers_upto(w, n, xs, xe, ys, ye, ye + 1, xs, i) {
                    outline_color(i % 4)
                } else {
                    f0[i]
                }),
            decreases y_end - y,
        {
            let mut x = x_start;
            while x <= x_end
                invariant
                    frame@.len() == n,
                    n == f0.len(),
                    w == frame_width && xs == x_start && xe == x_end && ys == y_start && ye == y_end,
                    y_start <= y <= y_end,
                    x_start <= x,
                    x <= x_end + 1 || x == x_start,
                    x_end < usize::MAX,
                    (y_end * frame_width + x_end) * 4 + 3 <= usize::MAX,
                    blue@ == seq![255u8, 100u8, 0u8, 255u8],
                    forall|i: int| 0 <= i < n ==> #[trigger] frame@[i] == (if box_covers_upto(w, n, xs, xe, ys, ye, y as int, x as int, i) {
                        outline_color(i % 4)
                    } else {
                        f0[i]
                    }),
                decreases x_end + 1 - x,
            {
                let is_edge = x == x_start || x == x_end || y == y_start || y == y_end;
                let ghost before = frame@;
                if is_edge {
                    assert((y * frame_width + x) * 4 + 3 <= (y_end * frame_width + x_end) * 4 + 3) by (nonlinear_arith)
                        requires
                            y <= y_end,
                            x <= x_end,
                    ;
                    let pixel_index = (y * frame_width + x) * 4;
                    if pixel_index + 3 < frame.len() {
                        assert(pixel_index + 3 <= usize::MAX);
                        let mut k: usize = 0;
                        while k < 4
                            invariant
                                k <= 4,
                                frame@.len() == n,
                                pixel_index + 3 < n,
                                pixel_index + 3 <= usize::MAX,
                                before.len() == n,
                                blue@ == seq![255u8, 100u8, 0u8, 255u8],
                                forall|i: int| 0 <= i < n ==> #[trigger] frame@[i] == (if pixel_index <= i < pixel_index + k {
                                    blue@[i - pixel_index]
                                } else {
                                    before[i]
                                }),
                            decreases 4 - k,
                        {
                            frame[pixel_index + k] = blue[k];
                            k += 1;
                        }
                    }
                }
                proof {
                    let px = (y as int * w + x as int) * 4;
                    assert forall|i: int| 0 <= i < n implies #[trigger] frame@[i] == (if box_covers_upto(w, n, xs, xe, ys, ye, y as int, x + 1, i) {
                        outline_color(i % 4)
                    } else {
                        f0[i]
                    }) by {
                        let here = box_edge(xs, xe, ys, ye, x as int, y as int) && pixel_byte(w, n, x as int, y as int, i);
                        if here {
                            assert(box_covers_upto(w, n, xs, xe, ys, ye, y as int, x + 1, i));
                            assert(i % 4 == i - px) by {
                                vstd::arithmetic::div_mod::lemma_fundamental_div_mod_converse(i, 4, y as int * w + x as int, i - px);
                            }
                        } else {
                            if box_covers_upto(w, n, xs, xe, ys, ye, y as int, x + 1, i) {
                                let (a, b) = choose|a: int, b: int| box_edge(xs, xe, ys, ye, a, b) && (b < y || (b == y && a < x + 1)) && #[trigger] pixel_byte(w, n, a, b, i);
                                assert(!(a == x && b == y));
                                assert(box_covers_upto(w, n, xs, xe, ys, ye, y as int, x as int, i));
                            }
                        }
                    }
                }
                x += 1;
            }
            proof {
                assert forall|i: int| 0 <= i < n implies #[trigger] frame@[i] == (if box_covers_upto(w, n, xs, xe, ys, ye, y + 1, xs, i) {
                    outline_color(i % 4)
                } else {
                    f0[i]
                }) by {
                    if box_covers_upto(w, n, xs, xe, ys, ye, y + 1, xs, i) {
                        let (a, b) = choose|a: int, b: int| box_edge(xs, xe, ys, ye, a, b) && (b < y + 1 || (b == y + 1 && a < xs)) && #[trigger] pixel_byte(w, n, a, b, i);
                        assert(box_covers_upto(w, n, xs, xe, ys, ye, y as int, x as int, i));
                    }
                    if box_covers_upto(w, n, xs, xe, ys, ye, y as int, x as int, i) {
                        let (a, b) = choose|a: int, b: int| box_edge(xs, xe, ys, ye, a, b) && (b < y || (b == y && a < x)) && #[trigger] pixel_byte(w, n, a, b, i);
                        assert(box_covers_upto(w, n, xs, xe, ys, ye, y + 1, xs, i));
                    }
                }
            }
            if y == y_end {
                break;
            }
            y += 1;
        }
        proof { yd = ye + 1; }
    }
    proof {
        assert forall|i: int| 0 <= i < n implies #[trigger] frame@[i] == (if box_covers(w, n, xs, xe, ys, ye, i) {
            outline_color(i % 4)
        } else {
            f0[i]
        }) by {
            if box_covers(w, n, xs, xe, ys, ye, i) {
                let (a, b) = choose|a: int, b: int| box_edge(xs, xe, ys, ye, a, b) && #[trigger] pixel_byte(w, n, a, b, i);
                assert(box_covers_upto(w, n, xs, xe, ys, ye, yd, xs, i));
            }
            if box_covers_upto(w, n, xs, xe, ys, ye, yd, xs, i) {
                let (a, b) = choose|a: int, b: int| box_edge(xs, xe, ys, ye, a, b) && (b < yd || (b == yd && a < xs)) && #[trigger] pixel_byte(w, n, a, b, i);
                assert(box_covers(w, n, xs, xe, ys, ye, i));
            }
        }
    }
}

// ---------------------------------------------------------------------------
// Surface size
// ---------------------------------------------------------------------------

/// Width of the surface while the dock shows no icon.
pub const EMPTY_DOCK_WIDTH: u32 = 100;
/// Height of the surface while a menu or the window-list popup is shown.
pub const TALL_HEIGHT: u32 = 200;

/// The apps counted when sizing the surface: every pinned app, then each further
/// app id of a window, in table order.
pub open spec fn sized_apps(pinned: Seq<Seq<char>>, es: Seq<(u32, WindowModel)>) -> Seq<Seq<char>> {
    add_keys(pinned, app_ids(es))
}

/// Width the surface needs for `n` icons (the empty dock keeps a small width).
pub open spec fn surface_width(n: int) -> u32 {
    if n > 0 { content_width(n) as u32 } else { EMPTY_DOCK_WIDTH }
}

/// Height of the surface: tall while a menu or the popup is shown.
pub open spec fn surface_height(menu_open: bool, hover_visible: bool) -> u32 {
    if menu_open || hover_visible { TALL_HEIGHT } else { DOCK_HEIGHT }
}

impl crate::dock::DockState {
    /// The size the surface should have for the current pins, windows and menus.
    pub fn surface_size(&self) -> (r: (u32, u32))
        requires
            60 * (self.pinned_apps@.len() + self.open_windows@.len()) + 12 <= usize::MAX,
        ensures
            r.0 == surface_width(sized_apps(str_views(self.pinned_apps@), entries_model(self.open_windows@)).len() as int),
            r.1 == surface_height(self.menu_state.is_open, self.hover_state.is_visible),
    {
        let ghost es = entries_model(self.open_windows@);
        let ghost ids = app_ids(es);
        let mut apps: Vec<Vec<char>> = Vec::new();
        let mut i: usize = 0;
        while i < self.pinned_apps.len()
            invariant
                i <= self.pinned_apps@.len(),
                views(apps@) == str_views(self.pinned_apps@).take(i as int),
            decreases self.pinned_apps@.len() - i,
        {
            let c = chars_of(self.pinned_apps[i].as_str());
            assert(c@ == str_views(self.pinned_apps@)[i as int]);
            let ghost before = apps@;
            apps.push(c);
            assert(views(apps@) =~= views(before).push(c@));
            assert(views(apps@) =~= str_views(self.pinned_apps@).take(i + 1));
            i += 1;
        }
        assert(str_views(self.pinned_apps@).take(self.pinned_apps@.len() as int) =~= str_views(self.pinned_apps@));
        let mut j: usize = 0;
        while j < self.open_windows.len()
            invariant
                j <= self.open_windows@.len(),
                es == entries_model(self.open_windows@),
                ids == app_ids(es),
                views(apps@) == add_keys(str_views(self.pinned_apps@), ids.take(j as int)),
            decreases self.open_windows@.len() - j,
        {
            let c = chars_of(self.open_windows[j].info.app_id.as_str());
            proof {
                assert(ids.take(j + 1).drop_last() =~= ids.take(j as int));
                assert(ids.take(j + 1).last() == c@);
            }
            if !contains_chars(&apps, &c) {
                let ghost before = apps@;
                let ghost cv = c@;
                apps.push(c);
                assert(views(apps@) =~= views(before).push(cv));
            }
            j += 1;
        }
        assert(ids.take(self.open_windows@.len() as int) =~= ids);
        proof { lemma_add_keys_len(str_views(self.pinned_apps@), ids); }
        let n = apps.len();
        let width: u32 = if n > 0 { content_width_exec(n) as u32 } else { EMPTY_DOCK_WIDTH };
        let height: u32 = if self.menu_state.is_open || self.hover_state.is_visible { TALL_HEIGHT } else { DOCK_HEIGHT };
        (width, height)
    }

    /// Resizes the surface to what the dock needs; returns whether the size changed
    /// (the caller then passes it on to the compositor).
    pub fn fit_surface(&mut self) -> (changed: bool)
        requires
            60 * (old(self).pinned_apps@.len() + old(self).open_windows@.len()) + 12 <= usize::MAX,
        ensures
            changed == (old(self).width != surface_width(sized_apps(str_views(old(self).pinned_apps@), entries_model(old(self).open_windows@)).len() as int)
                || old(self).height != surface_height(old(self).menu_state.is_open, old(self).hover_state.is_visible)),
            final(self).width == surface_width(sized_apps(str_views(old(self).pinned_apps@), entries_model(old(self).open_windows@)).len() as int),
            final(self).height == surface_height(old(self).menu_state.is_open, old(self).hover_state.is_visible),
            final(self).pinned_apps == old(self).pinned_apps,
            final(self).open_windows == old(self).open_windows,
            final(self).menu_state == old(self).menu_state,
            final(self).hover_state == old(self).hover_state,
            final(self).pointer_x == old(self).pointer_x,
            final(self).pointer_y == old(self).pointer_y,
            final(self).needs_redraw == old(self).needs_redraw,
            final(self).last_interact_time == old(self).last_interact_time,
    {
        let (w, h) = self.surface_size();
        if w != self.width || h != self.height {
            self.width = w;
            self.height = h;
            true
        } else {
            false
        }
    }

    /// Takes the size the compositor configured: its width, but never below the
    /// empty dock's width, and the height the menus call for.
    pub fn configure(&mut self, new_width: u32)
        ensures
            final(self).width == (if new_width >= EMPTY_DOCK_WIDTH { new_width } else { EMPTY_DOCK_WIDTH }),
            final(self).height == surface_height(old(self).menu_state.is_open, old(self).hover_state.is_visible),
            final(self).pinned_apps == old(self).pinned_apps,
            final(self).open_windows == old(self).open_windows,
            final(self).menu_state == old(self).menu_state,
            final(self).hover_state == old(self).hover_state,
            final(self).pointer_x == old(self).pointer_x,
            final(self).pointer_y == old(self).pointer_y,
            final(self).needs_redraw == old(self).needs_redraw,
            final(self).last_interact_time == old(self).last_interact_time,
    {
        self.width = if new_width >= EMPTY_DOCK_WIDTH { new_width } else { EMPTY_DOCK_WIDTH };
        self.height = if self.menu_state.is_open || self.hover_state.is_visible { TALL_HEIGHT } else { DOCK_HEIGHT };
    }
}

// ---------------------------------------------------------------------------
// Whole-buffer fills
// ---------------------------------------------------------------------------

/// `c` with every whole four-byte pixel set to `color`; a trailing partial pixel stays.
pub open spec fn spec_fill_pixels(c: Seq<u8>, color: Seq<u8>) -> Seq<u8> {
    Seq::new(c.len(), |i: int| if i < c.len() - c.len() % 4 { color[i % 4] } else { c[i] })
}

/// Sets every whole four-byte pixel of `canvas` to `color`.
pub fn fill_pixels(canvas: &mut [u8], color: [u8; 4])
    ensures
        final(canvas)@ == spec_fill_pixels(old(canvas)@, color@),
{
    let ghost c0 = canvas@;
    let n = canvas.len();
    let whole = n - n % 4;
    let mut i: usize = 0;
    while i < whole
        invariant
            n == canvas@.len(),
            n == c0.len(),
            whole == n - n % 4,
            i <= whole,
            forall|j: int| 0 <= j < n ==> #[trigger] canvas@[j] == (if j < i { color@[j % 4] } else { c0[j] }),
        decreases whole - i,
    {
        canvas[i] = color[i % 4];
        i += 1;
    }
    assert(canvas@ =~= spec_fill_pixels(c0, color@));
}

/// The size a surface is drawn at: a width or height not configured yet (zero)
/// falls back to 1200 x 60.
pub fn fallback_size(width: u32, height: u32) -> (r: (u32, u32))
    ensures
        r.0 == (if width == 0 { 1200 } else { width }),
        r.1 == (if height == 0 { DOCK_HEIGHT } else { height }),
{
    (if width == 0 { 1200 } else { width }, if height == 0 { DOCK_HEIGHT } else { height })
}

/// Colour of the probe square.
pub open spec fn probe_color() -> Seq<u8> {
    seq![0xFFu8, 0x44u8, 0x11u8, 0xFFu8]
}

/// The probe square: 48 pixels wide, 20 pixels from the left, vertically centred.
pub open spec fn probe_rect(h: int) -> Rect {
    Rect { x: 20, y: ((h - BOX_SIZE) / 2) as usize, w: 48, h: 48 }
}

/// Paints the probe frame: the whole surface in the dock colour and one square in
/// its left part (used to check that drawing reaches the screen at all).
pub fn paint_probe(canvas: &mut [u8], width: u32, height: u32)
    requires
        height >= BOX_SIZE,
        width * height * 4 <= old(canvas)@.len(),
    ensures
        final(canvas)@ == spec_fill(spec_fill_pixels(old(canvas)@, seq![0x11u8, 0x11u8, 0x11u8, 0xFFu8]),
            width as int, height as int, probe_rect(height as int), probe_color(), 4),
{
    let dock: [u8; 4] = [0x11u8, 0x11u8, 0x11u8, 0xFFu8];
    assert(dock@ =~= seq![0x11u8, 0x11u8, 0x11u8, 0xFFu8]);
    fill_pixels(canvas, dock);
    let color: [u8; 4] = [0xFFu8, 0x44u8, 0x11u8, 0xFFu8];
    assert(color@ =~= probe_color());
    let r = Rect { x: 20, y: (height as usize - BOX_SIZE) / 2, w: BOX_SIZE, h: BOX_SIZE };
    fill_rect(canvas, width as usize, height as usize, r, color, 4);
}

// ---------------------------------------------------------------------------
// The context menu's own surface
// ---------------------------------------------------------------------------

/// One row of the context menu as drawn on its own surface (`MENU_WIDTH` wide):
/// its label, the top of its row, and where its text starts.
pub struct MenuRow {
    pub label: String,
    pub top: u32,
    pub text_x: usize,
    pub baseline: usize,
}

/// The labels of the context menu, top to bottom.
pub open spec fn menu_labels(is_pinned: bool) -> Seq<Seq<char>> {
    seq!["Focus"@, "Open"@, "Minimize"@, "Close"@, if is_pinned { "Unpin"@ } else { "Pin"@ }]
}

/// Left edge of a label of `n` characters, centred with 7 pixels per character.
pub open spec fn label_x(n: int) -> int {
    if 7 * n <= crate::dock::MENU_WIDTH { (crate::dock::MENU_WIDTH - 7 * n) / 2 } else { 0 }
}

/// Row `k` of the context menu with label `l`.
pub open spec fn row_ok(r: MenuRow, k: int, l: Seq<char>) -> bool {
    &&& r.label@ == l
    &&& r.top == k * crate::dock::MENU_ITEM_HEIGHT
    &&& r.text_x == label_x(l.len() as int)
    &&& r.baseline == k * crate::dock::MENU_ITEM_HEIGHT + 22
}

fn menu_row(label: &str, k: u32) -> (r: MenuRow)
    requires
        k < 5,
        label@.len() <= 100,
    ensures
        row_ok(r, k as int, label@),
{
    let n = chars_of(label).len();
    let text_x = if 7 * n <= 120 { (120 - 7 * n) / 2 } else { 0 };
    MenuRow { label: String::from_str(label), top: k * 30, text_x, baseline: (k * 30 + 22) as usize }
}

/// The rows of the context menu: Focus, Open, Minimize, Close, and Pin or Unpin.
pub fn context_menu_rows(is_pinned: bool) -> (r: Vec<MenuRow>)
    ensures
        r@.len() == 5,
        forall|k: int| 0 <= k < 5 ==> row_ok(#[trigger] r@[k], k, menu_labels(is_pinned)[k]),
{
    proof {
        reveal_strlit("Focus");
        reveal_strlit("Open");
        reveal_strlit("Minimize");
        reveal_strlit("Close");
        reveal_strlit("Unpin");
        reveal_strlit("Pin");
    }
    let mut r: Vec<MenuRow> = Vec::new();
    r.push(menu_row("Focus", 0));
    r.push(menu_row("Open", 1));
    r.push(menu_row("Minimize", 2));
    r.push(menu_row("Close", 3));
    if is_pinned {
        r.push(menu_row("Unpin", 4));
    } else {
        r.push(menu_row("Pin", 4));
    }
    r
}

} // verus!

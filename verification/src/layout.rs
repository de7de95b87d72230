//! Where things sit on the dock: which apps get an icon, in which order, and
//! which icon (if any) lies under a given x coordinate.
use vstd::prelude::*;
use crate::text::{chars_of, chars_eq};
use crate::windows::{WindowEntry, WindowModel};

verus! {

/// Side length of an icon slot.
pub const BOX_SIZE: usize = 48;
/// Gap between icon slots (and before the first one).
pub const SPACING: usize = 12;
/// Height of the dock bar.
pub const DOCK_HEIGHT: u32 = 60;

/// A window as the dock sees it: its id and what is known of it.
pub open spec fn entries_model(s: Seq<WindowEntry>) -> Seq<(u32, WindowModel)> {
    s.map_values(|e: WindowEntry| (e.id, e.info@))
}

/// The name a window is grouped under: its app id, else its title, else "Unknown".
pub open spec fn window_key(w: WindowModel) -> Seq<char> {
    if w.app_id.len() > 0 {
        w.app_id
    } else if w.title.len() > 0 {
        w.title
    } else {
        "Unknown"@
    }
}

/// Lexicographic order of code points.  For strings this is the order `String`'s `Ord`
/// uses: it compares UTF-8 bytes, and UTF-8 preserves the order of code points.
pub open spec fn seq_lt(a: Seq<char>, b: Seq<char>) -> bool
    decreases a.len(),
{
    if a.len() == 0 {
        b.len() > 0
    } else if b.len() == 0 {
        false
    } else if a[0] != b[0] {
        (a[0] as int) < (b[0] as int)
    } else {
        seq_lt(a.drop_first(), b.drop_first())
    }
}

/// `x` placed into the name-ordered `s` after every entry whose app name is not greater.
pub open spec fn insert_by_name(s: Seq<(u32, WindowModel)>, x: (u32, WindowModel)) -> Seq<(u32, WindowModel)>
    decreases s.len(),
{
    if s.len() == 0 {
        seq![x]
    } else if seq_lt(x.1.app_name, s[0].1.app_name) {
        seq![x] + s
    } else {
        seq![s[0]] + insert_by_name(s.drop_first(), x)
    }
}

/// Stable sort by app name (what `sort_by` with a comparison of app names gives).
pub open spec fn sort_by_name(s: Seq<(u32, WindowModel)>) -> Seq<(u32, WindowModel)>
    decreases s.len(),
{
    if s.len() == 0 {
        s
    } else {
        insert_by_name(sort_by_name(s.drop_last()), s.last())
    }
}

/// `apps` extended, in order, by each key not yet present.
pub open spec fn add_keys(apps: Seq<Seq<char>>, keys: Seq<Seq<char>>) -> Seq<Seq<char>>
    decreases keys.len(),
{
    if keys.len() == 0 {
        apps
    } else {
        let a = add_keys(apps, keys.drop_last());
        if a.contains(keys.last()) {
            a
        } else {
            a.push(keys.last())
        }
    }
}

/// Keys of the windows, in the given order.
pub open spec fn keys_of(s: Seq<(u32, WindowModel)>) -> Seq<Seq<char>> {
    s.map_values(|e: (u32, WindowModel)| window_key(e.1))
}

/// The apps that get an icon: the pinned ones in their order, then every further
/// app that has a window, in app-name order of its windows.
pub open spec fn spec_dock_apps(pinned: Seq<Seq<char>>, windows: Seq<(u32, WindowModel)>) -> Seq<Seq<char>> {
    add_keys(pinned, keys_of(sort_by_name(windows)))
}

/// Ids of the windows grouped under `app`, in app-name order.
pub open spec fn running_ids(sorted: Seq<(u32, WindowModel)>, app: Seq<char>) -> Seq<u32>
    decreases sorted.len(),
{
    if sorted.len() == 0 {
        Seq::empty()
    } else {
        let r = running_ids(sorted.drop_last(), app);
        if window_key(sorted.last().1) == app {
            r.push(sorted.last().0)
        } else {
            r
        }
    }
}

/// Width the icons of `n` apps take, gaps included (0 for no apps).
pub open spec fn content_width(n: int) -> int {
    if n > 0 {
        n * BOX_SIZE + (n + 1) * SPACING
    } else {
        0
    }
}

/// Left edge of the centred icon row on a surface `width` wide.
pub open spec fn start_offset(width: int, n: int) -> int {
    if width > content_width(n) {
        (width - content_width(n)) / 2
    } else {
        0
    }
}

/// Left edge of icon slot `i`.
pub open spec fn slot_x(offset: int, i: int) -> int {
    offset + SPACING + i * (BOX_SIZE + SPACING)
}

/// `px` lies on icon slot `i` (edges included).
pub open spec fn on_slot(offset: int, i: int, px: int) -> bool {
    slot_x(offset, i) <= px <= slot_x(offset, i) + BOX_SIZE
}

/// The icon slot among the first `n` under `px`, if any.
pub open spec fn spec_icon_at(offset: int, n: int, px: int) -> Option<int> {
    if exists|i: int| 0 <= i < n && #[trigger] on_slot(offset, i, px) {
        Some(choose|i: int| 0 <= i < n && #[trigger] on_slot(offset, i, px))
    } else {
        None
    }
}

/// Slots never overlap, so at most one holds `px`.
pub proof fn lemma_slot_unique(offset: int, i: int, j: int, px: int)
    requires
        0 <= i,
        0 <= j,
        on_slot(offset, i, px),
        on_slot(offset, j, px),
    ensures
        i == j,
{
    if i < j {
        assert(i * 60 + 60 <= j * 60) by (nonlinear_arith)
            requires
                i < j,
        ;
    } else if j < i {
        assert(j * 60 + 60 <= i * 60) by (nonlinear_arith)
            requires
                j < i,
        ;
    }
}

/// Width of the icon row for `n` apps.
pub fn content_width_exec(n: usize) -> (w: usize)
    requires
        60 * n + 12 <= usize::MAX,
    ensures
        w == content_width(n as int),
{
    if n > 0 {
        n * BOX_SIZE + (n + 1) * SPACING
    } else {
        0
    }
}

/// Left edge of the icon row, centred in `width` when it fits.
pub fn start_offset_exec(width: u32, n: usize) -> (o: usize)
    requires
        60 * n + 12 <= usize::MAX,
    ensures
        o == start_offset(width as int, n as int),
        o + content_width(n as int) <= (if width as int > content_width(n as int) { width as int } else { content_width(n as int) }),
{
    let cw = content_width_exec(n);
    if (width as usize) > cw {
        ((width as usize) - cw) / 2
    } else {
        0
    }
}

/// The icon slot among the first `n` that holds `px`.
pub fn icon_at(offset: usize, n: usize, px: usize) -> (r: Option<usize>)
    requires
        offset + 60 * n <= usize::MAX,
    ensures
        r matches Some(i) ==> spec_icon_at(offset as int, n as int, px as int) == Some(i as int) && i < n,
        r is None ==> spec_icon_at(offset as int, n as int, px as int) is None,
{
    let mut i: usize = 0;
    while i < n
        invariant
            i <= n,
            offset + 60 * n <= usize::MAX,
            forall|k: int| 0 <= k < i ==> !on_slot(offset as int, k, px as int),
        decreases n - i,
    {
        assert(offset + 12 + i * 60 + 48 <= offset + 60 * n) by (nonlinear_arith)
            requires
                i < n,
        ;
        let start_x = offset + SPACING + i * (BOX_SIZE + SPACING);
        let end_x = start_x + BOX_SIZE;
        if px >= start_x && px <= end_x {
            proof {
                assert(on_slot(offset as int, i as int, px as int));
                let j = choose|j: int| 0 <= j < n && #[trigger] on_slot(offset as int, j, px as int);
                lemma_slot_unique(offset as int, i as int, j, px as int);
            }
            return Some(i);
        }
        i += 1;
    }
    None
}

/// Whether `a` comes strictly before `b` in code point order.
pub fn chars_lt(a: &Vec<char>, b: &Vec<char>) -> (r: bool)
    ensures
        r == seq_lt(a@, b@),
{
    let mut i: usize = 0;
    assert(a@.skip(0) =~= a@);
    assert(b@.skip(0) =~= b@);
    while i < a.len() && i < b.len() && a[i] == b[i]
        invariant
            i <= a@.len(),
            i <= b@.len(),
            seq_lt(a@, b@) == seq_lt(a@.skip(i as int), b@.skip(i as int)),
        decreases a@.len() - i,
    {
        proof {
            let x = a@.skip(i as int);
            let y = b@.skip(i as int);
            assert(x[0] == y[0]);
            assert(x.drop_first() =~= a@.skip(i + 1));
            assert(y.drop_first() =~= b@.skip(i + 1));
        }
        i += 1;
    }
    proof {
        let x = a@.skip(i as int);
        let y = b@.skip(i as int);
        if i < a@.len() && i < b@.len() {
            assert(x[0] == a@[i as int]);
            assert(y[0] == b@[i as int]);
        }
    }
    if i == a.len() {
        i < b.len()
    } else if i == b.len() {
        false
    } else {
        a[i] < b[i]
    }
}

/// `insert_by_name` puts `x` before the first entry whose name is greater.
proof fn lemma_insert_by_name(s: Seq<(u32, WindowModel)>, x: (u32, WindowModel), p: int)
    requires
        0 <= p <= s.len(),
        forall|j: int| 0 <= j < p ==> !seq_lt(x.1.app_name, #[trigger] s[j].1.app_name),
        p == s.len() || seq_lt(x.1.app_name, s[p].1.app_name),
    ensures
        insert_by_name(s, x) == s.insert(p, x),
    decreases p,
{
    if s.len() == 0 {
        assert(s.insert(p, x) =~= seq![x]);
    } else if p == 0 {
        assert(s.insert(0, x) =~= seq![x] + s);
    } else {
        let t = s.drop_first();
        assert forall|j: int| 0 <= j < p - 1 implies !seq_lt(x.1.app_name, #[trigger] t[j].1.app_name) by {
            assert(t[j] == s[j + 1]);
        }
        if p - 1 < t.len() {
            assert(t[p - 1] == s[p]);
        }
        lemma_insert_by_name(t, x, p - 1);
        assert(seq![s[0]] + t.insert(p - 1, x) =~= s.insert(p, x));
    }
}

/// The entries of `es` listed by the positions `order`.
pub open spec fn pick(es: Seq<(u32, WindowModel)>, order: Seq<usize>) -> Seq<(u32, WindowModel)> {
    order.map_values(|k: usize| es[k as int])
}

/// Positions of `ws` in app-name order (stable: equal names keep their order).
pub fn sorted_order(ws: &Vec<WindowEntry>) -> (order: Vec<usize>)
    ensures
        pick(entries_model(ws@), order@) == sort_by_name(entries_model(ws@)),
        forall|k: int| 0 <= k < order@.len() ==> #[trigger] order@[k] < ws@.len(),
        order@.len() == ws@.len(),
{
    let ghost es = entries_model(ws@);
    let mut names: Vec<Vec<char>> = Vec::new();
    let mut i: usize = 0;
    while i < ws.len()
        invariant
            i <= ws@.len(),
            es == entries_model(ws@),
            names@.len() == i,
            forall|k: int| 0 <= k < i ==> (#[trigger] names@[k])@ == es[k].1.app_name,
        decreases ws@.len() - i,
    {
        names.push(chars_of(ws[i].info.app_name.as_str()));
        i += 1;
    }
    let mut order: Vec<usize> = Vec::new();
    let mut i: usize = 0;
    while i < ws.len()
        invariant
            i <= ws@.len(),
            es == entries_model(ws@),
            es.len() == ws@.len(),
            names@.len() == ws@.len(),
            forall|k: int| 0 <= k < ws@.len() ==> (#[trigger] names@[k])@ == es[k].1.app_name,
            order@.len() == i,
            forall|k: int| 0 <= k < order@.len() ==> #[trigger] order@[k] < i,
            pick(es, order@) == sort_by_name(es.take(i as int)),
        decreases ws@.len() - i,
    {
        let ghost s = pick(es, order@);
        let mut p: usize = 0;
        while p < order.len() && !chars_lt(&names[i], &names[order[p]])
            invariant
                p <= order@.len(),
                i < ws@.len(),
                names@.len() == ws@.len(),
                forall|k: int| 0 <= k < order@.len() ==> #[trigger] order@[k] < i,
                forall|k: int| 0 <= k < ws@.len() ==> (#[trigger] names@[k])@ == es[k].1.app_name,
                s == pick(es, order@),
                forall|j: int| 0 <= j < p ==> !seq_lt(es[i as int].1.app_name, #[trigger] s[j].1.app_name),
            decreases order@.len() - p,
        {
            p += 1;
        }
        proof {
            lemma_insert_by_name(s, es[i as int], p as int);
            assert(es.take(i + 1).drop_last() =~= es.take(i as int));
            assert(es.take(i + 1).last() == es[i as int]);
        }
        order.insert(p, i);
        proof {
            assert(pick(es, order@) =~= s.insert(p as int, es[i as int]));
        }
        i += 1;
    }
    proof {
        assert(es.take(ws@.len() as int) =~= es);
    }
    order
}


/// Character sequences of a list of character vectors.
pub open spec fn views(v: Seq<Vec<char>>) -> Seq<Seq<char>> {
    v.map_values(|c: Vec<char>| c@)
}

/// Character sequences of a list of strings.
pub open spec fn str_views(v: Seq<String>) -> Seq<Seq<char>> {
    v.map_values(|c: String| c@)
}

/// Whether `x` is among `v`.
pub fn contains_chars(v: &Vec<Vec<char>>, x: &Vec<char>) -> (r: bool)
    ensures
        r == views(v@).contains(x@),
{
    let mut i: usize = 0;
    while i < v.len()
        invariant
            i <= v@.len(),
            forall|k: int| 0 <= k < i ==> v@[k]@ != x@,
        decreases v@.len() - i,
    {
        if chars_eq(&v[i], x) {
            assert(views(v@)[i as int] == x@);
            return true;
        }
        i += 1;
    }
    assert forall|k: int| 0 <= k < views(v@).len() implies views(v@)[k] != x@ by {
        assert(views(v@)[k] == v@[k]@);
    }
    false
}

/// The name a window is grouped under.
pub fn key_of(w: &crate::windows::WindowDiagnostics) -> (k: Vec<char>)
    ensures
        k@ == window_key(w@),
{
    let a = chars_of(w.app_id.as_str());
    if a.len() > 0 {
        return a;
    }
    let t = chars_of(w.title.as_str());
    if t.len() > 0 {
        return t;
    }
    chars_of("Unknown")
}

/// Everything the pointer logic needs to know about the arrangement of the dock.
pub struct DockLayout {
    /// The apps that have an icon, left to right.
    pub apps: Vec<Vec<char>>,
    /// Grouping key of each window, in app-name order.
    pub keys: Vec<Vec<char>>,
    /// Id of each window, in app-name order.
    pub ids: Vec<u32>,
    /// Left edge of the icon row.
    pub offset: usize,
    /// Top edge of the dock bar within the surface.
    pub dock_top: usize,
}

/// `lay` describes the dock of a surface `width` x `height` with the given pins and windows.
pub open spec fn layout_of(lay: DockLayout, width: u32, height: u32, pinned: Seq<String>, ws: Seq<WindowEntry>) -> bool {
    let so = sort_by_name(entries_model(ws));
    &&& views(lay.apps@) == spec_dock_apps(str_views(pinned), entries_model(ws))
    &&& lay.keys@.len() == so.len()
    &&& lay.ids@.len() == so.len()
    &&& forall|k: int| 0 <= k < so.len() ==> (#[trigger] lay.keys@[k])@ == window_key(so[k].1)
    &&& forall|k: int| 0 <= k < so.len() ==> #[trigger] lay.ids@[k] == so[k].0
    &&& lay.offset == start_offset(width as int, lay.apps@.len() as int)
    &&& lay.dock_top == (if height >= DOCK_HEIGHT { height - DOCK_HEIGHT } else { 0 })
}

pub proof fn lemma_sort_len(s: Seq<(u32, WindowModel)>)
    ensures
        sort_by_name(s).len() == s.len(),
    decreases s.len(),
{
    if s.len() > 0 {
        lemma_sort_len(s.drop_last());
        lemma_insert_len(sort_by_name(s.drop_last()), s.last());
    }
}

proof fn lemma_insert_len(s: Seq<(u32, WindowModel)>, x: (u32, WindowModel))
    ensures
        insert_by_name(s, x).len() == s.len() + 1,
    decreases s.len(),
{
    if s.len() > 0 {
        lemma_insert_len(s.drop_first(), x);
    }
}

pub proof fn lemma_add_keys_len(apps: Seq<Seq<char>>, keys: Seq<Seq<char>>)
    ensures
        add_keys(apps, keys).len() <= apps.len() + keys.len(),
    decreases keys.len(),
{
    if keys.len() > 0 {
        lemma_add_keys_len(apps, keys.drop_last());
    }
}

/// Lays out the dock for a surface `width` x `height`.
pub fn compute_layout(width: u32, height: u32, pinned: &Vec<String>, ws: &Vec<WindowEntry>) -> (lay: DockLayout)
    requires
        60 * (pinned@.len() + ws@.len()) + 12 <= usize::MAX,
    ensures
        layout_of(lay, width, height, pinned@, ws@),
        lay.apps@.len() <= pinned@.len() + ws@.len(),
{
    let ghost es = entries_model(ws@);
    let ghost so = sort_by_name(es);
    let order = sorted_order(ws);
    proof { lemma_sort_len(es); }
    let mut keys: Vec<Vec<char>> = Vec::new();
    let mut ids: Vec<u32> = Vec::new();
    let mut k: usize = 0;
    while k < order.len()
        invariant
            k <= order@.len(),
            order@.len() == ws@.len(),
            es == entries_model(ws@),
            so == sort_by_name(es),
            so.len() == es.len(),
            pick(es, order@) == so,
            forall|j: int| 0 <= j < order@.len() ==> #[trigger] order@[j] < ws@.len(),
            keys@.len() == k,
            ids@.len() == k,
            forall|j: int| 0 <= j < k ==> (#[trigger] keys@[j])@ == window_key(so[j].1),
            forall|j: int| 0 <= j < k ==> #[trigger] ids@[j] == so[j].0,
        decreases order@.len() - k,
    {
        let pos = order[k];
        assert(so[k as int] == es[pos as int]);
        keys.push(key_of(&ws[pos].info));
        ids.push(ws[pos].id);
        k += 1;
    }
    let mut apps: Vec<Vec<char>> = Vec::new();
    let mut i: usize = 0;
    while i < pinned.len()
        invariant
            i <= pinned@.len(),
            views(apps@) == str_views(pinned@).take(i as int),
        decreases pinned@.len() - i,
    {
        let c = chars_of(pinned[i].as_str());
        assert(c@ == str_views(pinned@)[i as int]);
        let ghost before = apps@;
        apps.push(c);
        assert(views(apps@) =~= views(before).push(c@));
        i += 1;
        assert(views(apps@) =~= str_views(pinned@).take(i as int));
    }
    assert(str_views(pinned@).take(pinned@.len() as int) =~= str_views(pinned@));
    let ghost ks = keys_of(so);
    let mut j: usize = 0;
    while j < keys.len()
        invariant
            j <= keys@.len(),
            keys@.len() == so.len(),
            ks == keys_of(so),
            forall|x: int| 0 <= x < so.len() ==> (#[trigger] keys@[x])@ == window_key(so[x].1),
            views(apps@) == add_keys(str_views(pinned@), ks.take(j as int)),
        decreases keys@.len() - j,
    {
        proof {
            assert(ks.take(j + 1).drop_last() =~= ks.take(j as int));
            assert(ks.take(j + 1).last() == keys@[j as int]@);
        }
        if !contains_chars(&apps, &keys[j]) {
            let kj = keys[j].clone();
            assert(kj@ == keys@[j as int]@);
            apps.push(kj);
            assert(views(apps@) =~= add_keys(str_views(pinned@), ks.take(j as int)).push(keys@[j as int]@));
        }
        j += 1;
    }
    assert(ks.take(keys@.len() as int) =~= ks);
    proof { lemma_add_keys_len(str_views(pinned@), ks); }
    let offset = start_offset_exec(width, apps.len());
    let dock_top = if height >= DOCK_HEIGHT { (height - DOCK_HEIGHT) as usize } else { 0 };
    DockLayout { apps, keys, ids, offset, dock_top }
}

/// Ids of the windows grouped under `app`, in app-name order.
pub fn running_windows(lay: &DockLayout, app: &Vec<char>) -> (r: Vec<u32>)
    requires
        lay.keys@.len() == lay.ids@.len(),
    ensures
        r@ == running_ids_of(*lay, app@),
{
    let mut r: Vec<u32> = Vec::new();
    let mut k: usize = 0;
    while k < lay.keys.len()
        invariant
            k <= lay.keys@.len(),
            lay.keys@.len() == lay.ids@.len(),
            r@ == running_ids_of_prefix(*lay, app@, k as int),
        decreases lay.keys@.len() - k,
    {
        if chars_eq(&lay.keys[k], app) {
            r.push(lay.ids[k]);
        }
        k += 1;
    }
    r
}

/// Ids of the first `k` windows of `lay` grouped under `app`.
pub open spec fn running_ids_of_prefix(lay: DockLayout, app: Seq<char>, k: int) -> Seq<u32>
    decreases k,
{
    if k <= 0 {
        Seq::empty()
    } else {
        let r = running_ids_of_prefix(lay, app, k - 1);
        if lay.keys@[k - 1]@ == app {
            r.push(lay.ids@[k - 1])
        } else {
            r
        }
    }
}

/// Ids of the windows of `lay` grouped under `app`.
pub open spec fn running_ids_of(lay: DockLayout, app: Seq<char>) -> Seq<u32> {
    running_ids_of_prefix(lay, app, lay.keys@.len() as int)
}

/// What the layout says about grouped windows agrees with the windows themselves.
pub proof fn lemma_running_ids(lay: DockLayout, width: u32, height: u32, pinned: Seq<String>, ws: Seq<WindowEntry>, app: Seq<char>)
    requires
        layout_of(lay, width, height, pinned, ws),
    ensures
        running_ids_of(lay, app) == running_ids(sort_by_name(entries_model(ws)), app),
{
    let so = sort_by_name(entries_model(ws));
    lemma_running_prefix(lay, so, app, so.len() as int);
    assert(so.take(so.len() as int) =~= so);
}

proof fn lemma_running_prefix(lay: DockLayout, so: Seq<(u32, WindowModel)>, app: Seq<char>, k: int)
    requires
        0 <= k <= so.len(),
        lay.keys@.len() == so.len(),
        lay.ids@.len() == so.len(),
        forall|j: int| 0 <= j < so.len() ==> (#[trigger] lay.keys@[j])@ == window_key(so[j].1),
        forall|j: int| 0 <= j < so.len() ==> #[trigger] lay.ids@[j] == so[j].0,
    ensures
        running_ids_of_prefix(lay, app, k) == running_ids(so.take(k), app),
    decreases k,
{
    if k > 0 {
        lemma_running_prefix(lay, so, app, k - 1);
        assert(so.take(k).drop_last() =~= so.take(k - 1));
        assert(so.take(k).last() == so[k - 1]);
        assert(lay.keys@[k - 1]@ == window_key(so[k - 1].1));
    } else {
        assert(so.take(0) =~= Seq::<(u32, WindowModel)>::empty());
    }
}


/// The icon row never reaches past the wider of the surface and the row itself.
pub proof fn lemma_offset_bound(width: int, n: int)
    requires
        0 <= width,
        0 <= n,
    ensures
        0 <= start_offset(width, n),
        start_offset(width, n) + content_width(n) <= (if width > content_width(n) { width } else { content_width(n) }),
        n > 0 ==> content_width(n) == 60 * n + 12,
{
}

/// Code point order is transitive and total.
pub proof fn lemma_lt_trans(a: Seq<char>, b: Seq<char>, c: Seq<char>)
    requires
        seq_lt(a, b),
        seq_lt(b, c),
    ensures
        seq_lt(a, c),
    decreases a.len(),
{
    if a.len() > 0 && b.len() > 0 && c.len() > 0 && a[0] == b[0] && b[0] == c[0] {
        lemma_lt_trans(a.drop_first(), b.drop_first(), c.drop_first());
    }
}

pub proof fn lemma_lt_total(a: Seq<char>, b: Seq<char>)
    requires
        a != b,
    ensures
        seq_lt(a, b) || seq_lt(b, a),
    decreases a.len(),
{
    if a.len() > 0 && b.len() > 0 && a[0] == b[0] {
        if a.drop_first() == b.drop_first() {
            assert(a =~= seq![a[0]] + a.drop_first());
            assert(b =~= seq![b[0]] + b.drop_first());
        }
        lemma_lt_total(a.drop_first(), b.drop_first());
    } else if a.len() == 0 && b.len() == 0 {
        assert(a =~= b);
    }
}

/// Each entry comes strictly before the next.
pub open spec fn strictly_sorted(s: Seq<Seq<char>>) -> bool {
    forall|i: int, j: int| 0 <= i < j < s.len() ==> seq_lt(#[trigger] s[i], #[trigger] s[j])
}

} // verus!

//! Bookkeeping of the window monitors: they follow the compositor's toplevels, give
//! each a name, and report what changed.
use vstd::prelude::*;
use crate::text::{chars_of, chars_eq};

verus! {

/// What a monitor knows about one toplevel.
pub struct TrackerEntry {
    pub id: u32,
    pub app_name: String,
    pub title: String,
    pub matched_pid: Option<u32>,
    pub icon_name: String,
    pub terminal_icon_code: String,
}

pub struct TrackerModel {
    pub id: u32,
    pub app_name: Seq<char>,
    pub title: Seq<char>,
    pub matched_pid: Option<u32>,
    pub icon_name: Seq<char>,
    pub terminal_icon_code: Seq<char>,
}

impl View for TrackerEntry {
    type V = TrackerModel;

    open spec fn view(&self) -> TrackerModel {
        TrackerModel {
            id: self.id,
            app_name: self.app_name@,
            title: self.title@,
            matched_pid: self.matched_pid,
            icon_name: self.icon_name@,
            terminal_icon_code: self.terminal_icon_code@,
        }
    }
}

pub open spec fn entries_view(v: Seq<TrackerEntry>) -> Seq<TrackerModel> {
    v.map_values(|e: TrackerEntry| e@)
}

/// A fresh entry: every text empty, no process.
pub open spec fn blank_entry(id: u32) -> TrackerModel {
    TrackerModel {
        id,
        app_name: Seq::empty(),
        title: Seq::empty(),
        matched_pid: None,
        icon_name: Seq::empty(),
        terminal_icon_code: Seq::empty(),
    }
}

/// Position of the first entry with id `id`.
pub open spec fn position(s: Seq<TrackerModel>, id: u32) -> Option<int> {
    if exists|i: int| 0 <= i < s.len() && #[trigger] s[i].id == id {
        Some(choose|i: int| 0 <= i < s.len() && #[trigger] s[i].id == id && forall|j: int| 0 <= j < i ==> s[j].id != id)
    } else {
        None
    }
}

/// The entries with one for `id` added at the end if there is none.
pub open spec fn with_entry(s: Seq<TrackerModel>, id: u32) -> Seq<TrackerModel> {
    if position(s, id) is Some { s } else { s.push(blank_entry(id)) }
}

/// An event the compositor sends about one toplevel.
pub enum TrackerEvent {
    AppId(String),
    Title(String),
    Done,
    Closed,
    Other,
}

/// What the caller has to do after a monitor took an event.
#[derive(PartialEq, Eq, Structural, Clone, Copy, Debug)]
pub enum TrackerAction {
    /// Look up the icon of the entry's app and store it with [`set_icon`].
    ResolveIcon,
    /// Scan the running processes for the entry's app and store the match with [`set_pid`].
    MatchProcess,
    Nothing,
}

/// Name a monitor gives an app: its id, or "taskman" for a toplevel without one.
pub open spec fn tracker_app_name(app_id: Seq<char>) -> Seq<char> {
    if app_id.len() == 0 { "taskman"@ } else { app_id }
}

/// Title a monitor keeps: the toplevel's title, or `untitled` for an empty one.
pub open spec fn tracker_title(title: Seq<char>, untitled: Seq<char>) -> Seq<char> {
    if title.len() == 0 { untitled } else { title }
}

/// Index of the first entry with id `id`.
fn find_entry(v: &Vec<TrackerEntry>, id: u32) -> (r: Option<usize>)
    ensures
        match r {
            Some(i) => position(entries_view(v@), id) == Some(i as int) && i < v@.len(),
            None => position(entries_view(v@), id) is None,
        },
{
    let ghost s = entries_view(v@);
    let mut i: usize = 0;
    while i < v.len()
        invariant
            i <= v@.len(),
            s == entries_view(v@),
            forall|j: int| 0 <= j < i ==> s[j].id != id,
        decreases v@.len() - i,
    {
        assert(s[i as int].id == v@[i as int].id);
        if v[i].id == id {
            proof {
                assert(s[i as int].id == id && forall|j: int| 0 <= j < i ==> s[j].id != id);
                let k = choose|k: int| 0 <= k < s.len() && #[trigger] s[k].id == id && forall|j: int| 0 <= j < k ==> s[j].id != id;
                if k > i {
                    assert(s[i as int].id == id);
                }
                assert(k == i);
            }
            return Some(i);
        }
        i += 1;
    }
    None
}

/// Index of the entry for `id`, which is added (blank) if missing.
fn ensure_entry(v: &mut Vec<TrackerEntry>, id: u32) -> (i: usize)
    ensures
        entries_view(final(v)@) == with_entry(entries_view(old(v)@), id),
        position(entries_view(final(v)@), id) == Some(i as int),
        i < final(v)@.len(),
{
    match find_entry(v, id) {
        Some(i) => i,
        None => {
            let ghost s = entries_view(v@);
            v.push(TrackerEntry {
                id,
                app_name: String::new(),
                title: String::new(),
                matched_pid: None,
                icon_name: String::new(),
                terminal_icon_code: String::new(),
            });
            let ghost t = entries_view(v@);
            assert(t =~= s.push(blank_entry(id)));
            let n = v.len() - 1;
            proof {
                assert(t[n as int].id == id && forall|j: int| 0 <= j < n ==> t[j].id != id);
                let k = choose|k: int| 0 <= k < t.len() && #[trigger] t[k].id == id && forall|j: int| 0 <= j < k ==> t[j].id != id;
                if k < n {
                    assert(s[k].id == t[k].id);
                }
            }
            n
        },
    }
}

/// The entries after a monitor took `ev` about toplevel `id` (`untitled` is what an
/// empty title is shown as).
pub open spec fn spec_tracker_event(s: Seq<TrackerModel>, id: u32, ev: TrackerEvent, untitled: Seq<char>) -> Seq<TrackerModel> {
    let t = with_entry(s, id);
    let i = position(t, id).unwrap();
    match ev {
        TrackerEvent::AppId(a) => t.update(i, TrackerModel { app_name: tracker_app_name(a@), ..t[i] }),
        TrackerEvent::Title(x) => t.update(i, TrackerModel { title: tracker_title(x@, untitled), ..t[i] }),
        TrackerEvent::Closed => t.remove(i),
        _ => t,
    }
}

/// Takes an event about toplevel `id`: an entry is made for it if there is none; a new
/// app id renames it (and its icon has to be looked up), a new title retitles it, the
/// end of a batch of changes asks for a process scan, and `Closed` forgets it.
pub fn tracker_event(v: &mut Vec<TrackerEntry>, id: u32, ev: TrackerEvent, untitled: &str) -> (action: TrackerAction)
    ensures
        entries_view(final(v)@) == spec_tracker_event(entries_view(old(v)@), id, ev, untitled@),
        action == (match ev {
            TrackerEvent::AppId(_) => TrackerAction::ResolveIcon,
            TrackerEvent::Done => TrackerAction::MatchProcess,
            _ => TrackerAction::Nothing,
        }),
{
    let i = ensure_entry(v, id);
    let ghost t = entries_view(v@);
    match ev {
        TrackerEvent::AppId(a) => {
            let name = if chars_of(a.as_str()).len() == 0 { String::from_str("taskman") } else { a };
            let mut e = v.remove(i);
            e.app_name = name;
            v.insert(i, e);
            assert(entries_view(v@) =~= t.update(i as int, TrackerModel { app_name: tracker_app_name(a@), ..t[i as int] }));
            TrackerAction::ResolveIcon
        },
        TrackerEvent::Title(x) => {
            let title = if chars_of(x.as_str()).len() == 0 { String::from_str(untitled) } else { x };
            let mut e = v.remove(i);
            e.title = title;
            v.insert(i, e);
            assert(entries_view(v@) =~= t.update(i as int, TrackerModel { title: tracker_title(x@, untitled@), ..t[i as int] }));
            TrackerAction::Nothing
        },
        TrackerEvent::Closed => {
            v.remove(i);
            assert(entries_view(v@) =~= t.remove(i as int));
            TrackerAction::Nothing
        },
        TrackerEvent::Done => TrackerAction::MatchProcess,
        TrackerEvent::Other => TrackerAction::Nothing,
    }
}

/// Stores the icon name and its terminal rendering of the entry for `id`, if any.
pub fn set_icon(v: &mut Vec<TrackerEntry>, id: u32, icon_name: String, terminal_icon_code: String)
    ensures
        match position(entries_view(old(v)@), id) {
            Some(i) => entries_view(final(v)@) == entries_view(old(v)@).update(i, TrackerModel {
                icon_name: icon_name@,
                terminal_icon_code: terminal_icon_code@,
                ..entries_view(old(v)@)[i]
            }),
            None => final(v)@ == old(v)@,
        },
{
    let ghost s = entries_view(v@);
    if let Some(i) = find_entry(v, id) {
        let ghost (iv, tv) = (icon_name@, terminal_icon_code@);
        let mut e = v.remove(i);
        e.icon_name = icon_name;
        e.terminal_icon_code = terminal_icon_code;
        v.insert(i, e);
        assert(entries_view(v@) =~= s.update(i as int, TrackerModel { icon_name: iv, terminal_icon_code: tv, ..s[i as int] }));
    }
}

/// Stores the process matched to the entry for `id`, if there is such an entry and a
/// match was found (an earlier match stays otherwise).
pub fn set_pid(v: &mut Vec<TrackerEntry>, id: u32, pid: Option<u32>)
    ensures
        match (position(entries_view(old(v)@), id), pid) {
            (Some(i), Some(p)) => entries_view(final(v)@) == entries_view(old(v)@).update(i, TrackerModel {
                matched_pid: Some(p),
                ..entries_view(old(v)@)[i]
            }),
            _ => final(v)@ == old(v)@,
        },
{
    let ghost s = entries_view(v@);
    if let Some(p) = pid {
        if let Some(i) = find_entry(v, id) {
            let mut e = v.remove(i);
            e.matched_pid = Some(p);
            v.insert(i, e);
            assert(entries_view(v@) =~= s.update(i as int, TrackerModel { matched_pid: Some(p), ..s[i as int] }));
        }
    }
}

// ---------------------------------------------------------------------------
// The name monitor
// ---------------------------------------------------------------------------

/// App id and title a name monitor last saw for a toplevel.
pub struct NamedWindow {
    pub id: u32,
    pub app_id: String,
    pub title: String,
}

pub open spec fn named_view(v: Seq<NamedWindow>) -> Seq<(u32, Seq<char>, Seq<char>)> {
    v.map_values(|n: NamedWindow| (n.id, n.app_id@, n.title@))
}

/// Position of the first record with id `id`.
pub open spec fn named_position(s: Seq<(u32, Seq<char>, Seq<char>)>, id: u32) -> Option<int> {
    if exists|i: int| 0 <= i < s.len() && #[trigger] s[i].0 == id {
        Some(choose|i: int| 0 <= i < s.len() && #[trigger] s[i].0 == id && forall|j: int| 0 <= j < i ==> s[j].0 != id)
    } else {
        None
    }
}

/// The records with an empty one for `id` added at the end if there is none.
pub open spec fn with_named(s: Seq<(u32, Seq<char>, Seq<char>)>, id: u32) -> Seq<(u32, Seq<char>, Seq<char>)> {
    if named_position(s, id) is Some { s } else { s.push((id, Seq::empty(), Seq::empty())) }
}

/// How a possibly empty text is shown: itself, or `placeholder` when empty.
pub open spec fn shown(s: Seq<char>, placeholder: Seq<char>) -> Seq<char> {
    if s.len() == 0 { placeholder } else { s }
}

/// `s`, or `placeholder` when `s` is empty.
pub fn shown_or(s: &str, placeholder: &str) -> (r: String)
    ensures
        r@ == shown(s@, placeholder@),
{
    let c = chars_of(s);
    if c.len() == 0 {
        String::from_str(placeholder)
    } else {
        String::from_str(s)
    }
}

/// Index of the first record with id `id`.
fn find_named(v: &Vec<NamedWindow>, id: u32) -> (r: Option<usize>)
    ensures
        match r {
            Some(i) => named_position(named_view(v@), id) == Some(i as int) && i < v@.len(),
            None => named_position(named_view(v@), id) is None,
        },
{
    let ghost s = named_view(v@);
    let mut i: usize = 0;
    while i < v.len()
        invariant
            i <= v@.len(),
            s == named_view(v@),
            forall|j: int| 0 <= j < i ==> s[j].0 != id,
        decreases v@.len() - i,
    {
        assert(s[i as int].0 == v@[i as int].id);
        if v[i].id == id {
            proof {
                assert(s[i as int].0 == id && forall|j: int| 0 <= j < i ==> s[j].0 != id);
                let k = choose|k: int| 0 <= k < s.len() && #[trigger] s[k].0 == id && forall|j: int| 0 <= j < k ==> s[j].0 != id;
                if k > i {
                    assert(s[i as int].0 == id);
                }
                assert(k == i);
            }
            return Some(i);
        }
        i += 1;
    }
    None
}

/// Index of the record for `id`, which is added (empty) if missing.
pub fn ensure_named(v: &mut Vec<NamedWindow>, id: u32) -> (i: usize)
    ensures
        named_view(final(v)@) == with_named(named_view(old(v)@), id),
        named_position(named_view(final(v)@), id) == Some(i as int),
        i < final(v)@.len(),
{
    match find_named(v, id) {
        Some(i) => i,
        None => {
            let ghost s = named_view(v@);
            v.push(NamedWindow { id, app_id: String::new(), title: String::new() });
            let ghost t = named_view(v@);
            assert(t =~= s.push((id, Seq::<char>::empty(), Seq::<char>::empty())));
            let n = v.len() - 1;
            proof {
                assert(t[n as int].0 == id && forall|j: int| 0 <= j < n ==> t[j].0 != id);
                let k = choose|k: int| 0 <= k < t.len() && #[trigger] t[k].0 == id && forall|j: int| 0 <= j < k ==> t[j].0 != id;
                if k < n {
                    assert(s[k].0 == t[k].0);
                }
            }
            n
        },
    }
}

/// A change of name reported by the name monitor: the new app id and title, as
/// shown, and the values seen before.
pub struct NameChange {
    pub app_id: String,
    pub title: String,
    pub was_app_id: String,
    pub was_title: String,
}

/// The records after the name monitor learned app id `a` and title `t` of toplevel
/// `id`, and whether that was a change.
pub open spec fn spec_name_update(s: Seq<(u32, Seq<char>, Seq<char>)>, id: u32, a: Seq<char>, t: Seq<char>) -> (Seq<(u32, Seq<char>, Seq<char>)>, bool) {
    let w = with_named(s, id);
    let i = named_position(w, id).unwrap();
    if w[i].1 != a || w[i].2 != t {
        (w.update(i, (id, a, t)), true)
    } else {
        (w, false)
    }
}

/// `named_position` finds the first record with the id, if any.
proof fn lemma_named_position(s: Seq<(u32, Seq<char>, Seq<char>)>, id: u32, k: int)
    requires
        0 <= k < s.len(),
        s[k].0 == id,
    ensures
        named_position(s, id) matches Some(i) && 0 <= i <= k && s[i].0 == id && forall|j: int| 0 <= j < i ==> s[j].0 != id,
    decreases k,
{
    if exists|j: int| 0 <= j < k && #[trigger] s[j].0 == id {
        let j = choose|j: int| 0 <= j < k && #[trigger] s[j].0 == id;
        lemma_named_position(s, id, j);
    } else {
        assert(s[k].0 == id && forall|j: int| 0 <= j < k ==> s[j].0 != id);
        let i = choose|i: int| 0 <= i < s.len() && #[trigger] s[i].0 == id && forall|j: int| 0 <= j < i ==> s[j].0 != id;
        if i > k {
            assert(s[k].0 != id);
        }
    }
}

/// Telling the name monitor the same app id and title twice reports a change at most
/// once: the second time nothing changes.
pub proof fn law_name_update_settles(s: Seq<(u32, Seq<char>, Seq<char>)>, id: u32, a: Seq<char>, t: Seq<char>)
    ensures
        ({
            let s1 = spec_name_update(s, id, a, t).0;
            &&& !spec_name_update(s1, id, a, t).1
            &&& spec_name_update(s1, id, a, t).0 == s1
        }),
{
    let w = with_named(s, id);
    if named_position(s, id) is None {
        assert(w[w.len() - 1].0 == id);
    } else {
        let i0 = named_position(s, id).unwrap();
        if exists|k: int| 0 <= k < s.len() && #[trigger] s[k].0 == id {
            let k = choose|k: int| 0 <= k < s.len() && #[trigger] s[k].0 == id;
            lemma_named_position(s, id, k);
        }
    }
    let n = w.len() - 1;
    if named_position(s, id) is None {
        lemma_named_position(w, id, n);
    } else {
        let k = choose|k: int| 0 <= k < s.len() && #[trigger] s[k].0 == id;
        lemma_named_position(w, id, k);
    }
    let i = named_position(w, id).unwrap();
    let s1 = spec_name_update(s, id, a, t).0;
    assert(s1[i].0 == id);
    lemma_named_position(s1, id, i);
    assert(with_named(s1, id) == s1);
    let i1 = named_position(s1, id).unwrap();
    if i1 < i {
        assert(s1[i1] == w[i1]);
    }
}

/// The name monitor learns toplevel `id`'s current app id and title.  If either
/// differs from what it saw last, the record is updated and the change returned
/// (empty values shown as `[BLANK APP_ID]` and `[BLANK TITLE]`).
pub fn name_update(v: &mut Vec<NamedWindow>, id: u32, app_id: &str, title: &str) -> (r: Option<NameChange>)
    ensures
        named_view(final(v)@) == spec_name_update(named_view(old(v)@), id, app_id@, title@).0,
        r is Some == spec_name_update(named_view(old(v)@), id, app_id@, title@).1,
        ({
            let t = with_named(named_view(old(v)@), id);
            let i = named_position(t, id).unwrap();
            r matches Some(c) ==> c.app_id@ == shown(app_id@, "[BLANK APP_ID]"@) && c.title@ == shown(title@, "[BLANK TITLE]"@)
                && c.was_app_id@ == t[i].1 && c.was_title@ == t[i].2
        }),
{
    let ghost s0 = named_view(v@);
    let i = ensure_named(v, id);
    let ghost t = named_view(v@);
    assert(t == with_named(s0, id));
    assert(named_position(t, id).unwrap() == i as int);
    let a = chars_of(app_id);
    let b = chars_of(title);
    let ca = chars_of(v[i].app_id.as_str());
    let cb = chars_of(v[i].title.as_str());
    assert(t[i as int].1 == ca@ && t[i as int].2 == cb@);
    if chars_eq(&a, &ca) && chars_eq(&b, &cb) {
        assert(spec_name_update(s0, id, app_id@, title@) == (t, false));
        return None;
    }
    assert(spec_name_update(s0, id, app_id@, title@) == (t.update(i as int, (id, app_id@, title@)), true));
    let change = NameChange {
        app_id: shown_or(app_id, "[BLANK APP_ID]"),
        title: shown_or(title, "[BLANK TITLE]"),
        was_app_id: v[i].app_id.clone(),
        was_title: v[i].title.clone(),
    };
    set_named(v, i, id, app_id, title);
    Some(change)
}

/// Replaces record `i` by `(id, app_id, title)`.
fn set_named(v: &mut Vec<NamedWindow>, i: usize, id: u32, app_id: &str, title: &str)
    requires
        i < old(v)@.len(),
    ensures
        named_view(final(v)@) == named_view(old(v)@).update(i as int, (id, app_id@, title@)),
{
    let ghost t = named_view(v@);
    v.set(i, NamedWindow { id, app_id: String::from_str(app_id), title: String::from_str(title) });
    assert(named_view(v@) =~= t.update(i as int, (id, app_id@, title@)));
}

/// The name monitor forgets toplevel `id`; returns its last app id (as shown) and
/// title, if it had a record.
pub fn name_closed(v: &mut Vec<NamedWindow>, id: u32) -> (r: Option<(String, String)>)
    ensures
        match named_position(named_view(old(v)@), id) {
            Some(i) => named_view(final(v)@) == named_view(old(v)@).remove(i) && (r matches Some(p)
                && p.0@ == shown(named_view(old(v)@)[i].1, "[BLANK APP_ID]"@) && p.1@ == named_view(old(v)@)[i].2),
            None => final(v)@ == old(v)@ && r is None,
        },
{
    let ghost s = named_view(v@);
    match find_named(v, id) {
        Some(i) => {
            let rec = v.remove(i);
            assert(named_view(v@) =~= s.remove(i as int));
            let shown_app = shown_or(rec.app_id.as_str(), "[BLANK APP_ID]");
            Some((shown_app, rec.title))
        },
        None => None,
    }
}

} // verus!

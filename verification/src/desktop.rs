//! Freedesktop `.desktop` entries: splitting them into lines, reading their
//! `[Desktop Entry]` section, and the index from window classes to icons.
use vstd::prelude::*;
use crate::text::{
    chars_of, find_char, lemma_span_len, lemma_span_len_bound, not_char, span_len, spec_trim, trim, chars_eq, first_word,
    rfind_char_tail, spec_first_word, rspan_len, spec_starts_with, starts_with, spec_to_lowercase, to_lowercase,
    string_of, spec_contains, contains, spec_eq_ignore_ascii_case, eq_ignore_ascii_case, opt_view, skip_ws_pub,
};
use crate::layout::str_views;
use crate::paths::{path_file_name, spec_path_file_name, path_join, spec_path_join};
use crate::layout::views;
use crate::paths::{extension, file_stem, spec_extension, spec_file_stem, opt_chars_view};
use crate::strmap::{StrMap, or_insert};

verus! {

/// The lines of `s` as `str::lines` yields them: split at `\n`, a `\r` before the `\n`
/// dropped, and no empty last line after a final line ending.
pub open spec fn spec_lines(s: Seq<char>) -> Seq<Seq<char>>
    decreases s.len(),
{
    if s.len() == 0 {
        Seq::empty()
    } else {
        let a = span_len(s, not_char('\n'));
        if a >= s.len() {
            seq![s]
        } else {
            let line = s.take(a as int);
            let line2 = if line.len() > 0 && line.last() == '\r' { line.drop_last() } else { line };
            seq![line2] + spec_lines(s.skip((a + 1) as int))
        }
    }
}

/// Index of the first `x` in `v` at or after `from` (or `v.len()`).
fn find_char_from(v: &Vec<char>, from: usize, x: char) -> (k: usize)
    requires
        from <= v@.len(),
    ensures
        from <= k <= v@.len(),
        k - from == span_len(v@.skip(from as int), not_char(x)),
        k < v@.len() ==> v@[k as int] == x,
{
    let mut k = from;
    while k < v.len() && v[k] != x
        invariant
            from <= k <= v@.len(),
            forall|j: int| from <= j < k ==> v@[j] != x,
        decreases v@.len() - k,
    {
        k += 1;
    }
    proof {
        let t = v@.skip(from as int);
        assert forall|j: int| 0 <= j < k - from implies #[trigger] not_char(x)(t[j]) by {
            assert(t[j] == v@[from + j]);
        }
        if k < v@.len() {
            assert(t[k - from] == v@[k as int]);
        }
        lemma_span_len(t, not_char(x), k - from);
    }
    k
}

/// Splits `content` into lines.
pub fn split_lines(content: &str) -> (r: Vec<Vec<char>>)
    ensures
        views(r@) == spec_lines(content@),
{
    let v = chars_of(content);
    let n = v.len();
    let mut out: Vec<Vec<char>> = Vec::new();
    let mut pos: usize = 0;
    assert(v@.skip(0) =~= v@);
    while pos < n
        invariant
            n == v@.len(),
            v@ == content@,
            pos <= n,
            views(out@) + spec_lines(v@.skip(pos as int)) == spec_lines(v@),
        decreases n - pos,
    {
        let ghost rest = v@.skip(pos as int);
        let k = find_char_from(&v, pos, '\n');
        let mut end = k;
        if k < n && end > pos && v[end - 1] == '\r' {
            end = end - 1;
        }
        let mut line: Vec<char> = Vec::new();
        let mut i = pos;
        while i < end
            invariant
                pos <= i <= end <= n,
                n == v@.len(),
                line@ == v@.subrange(pos as int, i as int),
            decreases end - i,
        {
            line.push(v[i]);
            i += 1;
            assert(line@ =~= v@.subrange(pos as int, i as int));
        }
        let ghost before = views(out@);
        out.push(line);
        assert(views(out@) =~= before.push(v@.subrange(pos as int, end as int)));
        proof {
            let a = k - pos;
            assert(rest.len() > 0);
            if k < n {
                let l = rest.take(a as int);
                assert(l =~= v@.subrange(pos as int, k as int));
                if l.len() > 0 && l.last() == '\r' {
                    assert(l.drop_last() =~= v@.subrange(pos as int, end as int));
                } else {
                    assert(end == k);
                }
                assert(rest.skip(a + 1) =~= v@.skip(k + 1));
                assert(spec_lines(rest) == seq![v@.subrange(pos as int, end as int)] + spec_lines(v@.skip(k + 1)));
                assert(before + spec_lines(rest) =~= views(out@) + spec_lines(v@.skip(k + 1)));
            } else {
                assert(end == n);
                assert(rest =~= v@.subrange(pos as int, n as int));
                assert(spec_lines(rest) == seq![rest]);
                assert(v@.skip(n as int) =~= Seq::<char>::empty());
                assert(before + spec_lines(rest) =~= views(out@) + spec_lines(v@.skip(n as int)));
            }
        }
        if k < n {
            pos = k + 1;
        } else {
            pos = n;
        }
    }
    proof {
        assert(v@.skip(n as int) =~= Seq::<char>::empty());
        assert(views(out@) + Seq::<Seq<char>>::empty() =~= views(out@));
    }
    out
}

/// `l` split at its first `=`, if it has one (`str::split_once`).
pub open spec fn spec_split_once_eq(l: Seq<char>) -> Option<(Seq<char>, Seq<char>)> {
    let a = span_len(l, not_char('='));
    if a >= l.len() {
        None
    } else {
        Some((l.take(a as int), l.skip((a + 1) as int)))
    }
}

/// Progress through the lines of a desktop file.
pub struct EntryScan {
    pub in_entry: bool,
    pub stopped: bool,
    pub map: Map<Seq<char>, Seq<char>>,
}

/// One line of a desktop file: the `[Desktop Entry]` header opens the section, the next
/// section header ends the scan, and within the section `key=value` lines are recorded
/// (a later line for the same key replaces an earlier one).
pub open spec fn entry_step(st: EntryScan, line: Seq<char>) -> EntryScan {
    if st.stopped {
        st
    } else {
        let l = spec_trim(line);
        if l == "[Desktop Entry]"@ {
            EntryScan { in_entry: true, ..st }
        } else if st.in_entry {
            if l.len() > 0 && l[0] == '[' {
                EntryScan { stopped: true, ..st }
            } else {
                match spec_split_once_eq(l) {
                    Some(kv) => EntryScan { map: st.map.insert(kv.0, kv.1), ..st },
                    None => st,
                }
            }
        } else {
            st
        }
    }
}

pub open spec fn entry_fold(lines: Seq<Seq<char>>) -> EntryScan
    decreases lines.len(),
{
    if lines.len() == 0 {
        EntryScan { in_entry: false, stopped: false, map: Map::empty() }
    } else {
        entry_step(entry_fold(lines.drop_last()), lines.last())
    }
}

/// The keys and values of the `[Desktop Entry]` section of a desktop file.
pub open spec fn spec_parse_desktop_file(content: Seq<char>) -> Map<Seq<char>, Seq<char>> {
    entry_fold(spec_lines(content)).map
}

/// Copies `v[from..to]`.
fn slice_chars(v: &Vec<char>, from: usize, to: usize) -> (r: Vec<char>)
    requires
        from <= to <= v@.len(),
    ensures
        r@ == v@.subrange(from as int, to as int),
{
    let mut r: Vec<char> = Vec::new();
    let mut i = from;
    while i < to
        invariant
            from <= i <= to <= v@.len(),
            r@ == v@.subrange(from as int, i as int),
        decreases to - i,
    {
        r.push(v[i]);
        i += 1;
        assert(r@ =~= v@.subrange(from as int, i as int));
    }
    r
}

fn split_once_eq(l: &Vec<char>) -> (r: Option<(Vec<char>, Vec<char>)>)
    ensures
        match r {
            Some(kv) => spec_split_once_eq(l@) == Some((kv.0@, kv.1@)),
            None => spec_split_once_eq(l@) is None,
        },
{
    let a = find_char(l, '=');
    if a >= l.len() {
        None
    } else {
        let k = slice_chars(l, 0, a);
        let v = slice_chars(l, a + 1, l.len());
        assert(k@ =~= l@.take(a as int));
        assert(v@ =~= l@.skip(a + 1));
        Some((k, v))
    }
}

/// Reads the `[Desktop Entry]` section of a desktop file whose text is `content`.
pub fn parse_desktop_file(content: &str) -> (m: StrMap)
    ensures
        m.wf(),
        m.view_map() == spec_parse_desktop_file(content@),
{
    let lines = split_lines(content);
    let header = chars_of("[Desktop Entry]");
    let mut m = StrMap::new();
    let mut in_entry = false;
    let mut stopped = false;
    let mut i: usize = 0;
    while i < lines.len()
        invariant
            i <= lines@.len(),
            m.wf(),
            header@ == "[Desktop Entry]"@,
            views(lines@) == spec_lines(content@),
            entry_fold(views(lines@).take(i as int)) == (EntryScan { in_entry, stopped, map: m.view_map() }),
        decreases lines@.len() - i,
    {
        proof {
            let ls = views(lines@);
            assert(ls.take(i + 1).drop_last() =~= ls.take(i as int));
            assert(ls.take(i + 1).last() == lines@[i as int]@);
        }
        if !stopped {
            let l = trim(&lines[i]);
            if chars_eq(&l, &header) {
                in_entry = true;
            } else if in_entry {
                if l.len() > 0 && l[0] == '[' {
                    stopped = true;
                } else {
                    match split_once_eq(&l) {
                        Some(kv) => {
                            m.insert(kv.0, kv.1);
                        },
                        None => {},
                    }
                }
            }
        }
        i += 1;
    }
    assert(views(lines@).take(lines@.len() as int) =~= views(lines@));
    m
}


// ---------------------------------------------------------------------------
// The desktop index: window classes, executables and file stems to icons
// ---------------------------------------------------------------------------

/// A desktop file as read from disk: its path and its text ("" when unreadable).
pub struct DesktopSource {
    pub path: String,
    pub content: String,
}

/// Icons and commands, keyed by window class, executable name and file stem.
pub struct DesktopIndex {
    pub icons: StrMap,
    pub execs: StrMap,
}

pub struct IndexModel {
    pub icons: Map<Seq<char>, Seq<char>>,
    pub execs: Map<Seq<char>, Seq<char>>,
}

impl DesktopIndex {
    pub open spec fn wf(&self) -> bool {
        self.icons.wf() && self.execs.wf()
    }

    pub open spec fn model(&self) -> IndexModel {
        IndexModel { icons: self.icons.view_map(), execs: self.execs.view_map() }
    }
}

/// The executable's name in a command line: the last `/`-separated part of its first
/// word (the whole command when it has no word).
pub open spec fn base_exec(exec: Seq<char>) -> Seq<char> {
    match spec_first_word(exec) {
        Some(w) => w.skip(w.len() - rspan_len(w, not_char('/'))),
        None => exec,
    }
}

/// Records `icon` and `exec` under `key` unless the key is taken.
pub open spec fn index_add(ix: IndexModel, key: Seq<char>, icon: Seq<char>, exec: Seq<char>) -> IndexModel {
    IndexModel { icons: or_insert(ix.icons, key, icon), execs: or_insert(ix.execs, key, exec) }
}

/// What one desktop file adds to the index: a `.desktop` file with both an `Icon` and an
/// `Exec` key is recorded under its `StartupWMClass` (if any), its executable's name
/// ("steam" also as "steamwebhelper") and its file stem; earlier files win.
pub open spec fn index_file(ix: IndexModel, path: Seq<char>, entry: Map<Seq<char>, Seq<char>>) -> IndexModel {
    if spec_extension(path) == Some("desktop"@) && entry.contains_key("Icon"@) && entry.contains_key("Exec"@) {
        let icon = entry["Icon"@];
        let exec = entry["Exec"@];
        let ix1 = if entry.contains_key("StartupWMClass"@) {
            index_add(ix, entry["StartupWMClass"@], icon, exec)
        } else {
            ix
        };
        let b = base_exec(exec);
        let ix2 = index_add(ix1, b, icon, exec);
        let ix3 = if b == "steam"@ { index_add(ix2, "steamwebhelper"@, icon, exec) } else { ix2 };
        match spec_file_stem(path) {
            Some(st) => index_add(ix3, st, icon, exec),
            None => ix3,
        }
    } else {
        ix
    }
}

/// The directories the desktop index is built from: the system's applications, then
/// the user's (`home` is `$HOME`, empty when unset).
pub open spec fn spec_index_dirs(home: Seq<char>) -> Seq<Seq<char>> {
    seq!["/usr/share/applications"@, home + "/.local/share/applications"@]
}

/// The directories the desktop index is built from.
pub fn index_dirs(home: &str) -> (r: Vec<String>)
    ensures
        str_views(r@) == spec_index_dirs(home@),
{
    let mut user = String::from_str(home);
    crate::persistence::push_str(&mut user, "/.local/share/applications");
    let mut r: Vec<String> = Vec::new();
    r.push(String::from_str("/usr/share/applications"));
    r.push(user);
    assert(str_views(r@) =~= spec_index_dirs(home@));
    r
}

pub open spec fn index_fold(files: Seq<DesktopSource>) -> IndexModel
    decreases files.len(),
{
    if files.len() == 0 {
        IndexModel { icons: Map::empty(), execs: Map::empty() }
    } else {
        index_file(index_fold(files.drop_last()), files.last().path@, spec_parse_desktop_file(files.last().content@))
    }
}

fn base_exec_exec(exec: &Vec<char>) -> (r: Vec<char>)
    ensures
        r@ == base_exec(exec@),
{
    match first_word(exec) {
        Some(w) => {
            let t = rfind_char_tail(&w, '/');
            let r = slice_chars(&w, w.len() - t, w.len());
            assert(r@ =~= w@.skip(w@.len() - t));
            r
        },
        None => exec.clone(),
    }
}

impl DesktopIndex {
    fn add(&mut self, key: &Vec<char>, icon: &Vec<char>, exec: &Vec<char>)
        requires
            old(self).wf(),
        ensures
            final(self).wf(),
            final(self).model() == index_add(old(self).model(), key@, icon@, exec@),
    {
        self.icons.insert_if_absent(key.clone(), icon.clone());
        self.execs.insert_if_absent(key.clone(), exec.clone());
    }

    fn add_file(&mut self, path: &str, entry: &StrMap)
        requires
            old(self).wf(),
            entry.wf(),
        ensures
            final(self).wf(),
            final(self).model() == index_file(old(self).model(), path@, entry.view_map()),
    {
        let is_desktop = match extension(path) {
            Some(e) => chars_eq(&e, &chars_of("desktop")),
            None => false,
        };
        if !is_desktop {
            return;
        }
        let icon = match entry.get(&chars_of("Icon")) {
            Some(i) => i,
            None => return,
        };
        let exec = match entry.get(&chars_of("Exec")) {
            Some(x) => x,
            None => return,
        };
        match entry.get(&chars_of("StartupWMClass")) {
            Some(wm) => self.add(&wm, &icon, &exec),
            None => {},
        }
        let b = base_exec_exec(&exec);
        self.add(&b, &icon, &exec);
        if chars_eq(&b, &chars_of("steam")) {
            self.add(&chars_of("steamwebhelper"), &icon, &exec);
        }
        match file_stem(path) {
            Some(st) => self.add(&st, &icon, &exec),
            None => {},
        }
    }
}

/// Builds the index from the desktop files found, in the order they were found.  A key
/// then has an icon exactly when some file the index takes in is recorded under it,
/// and the icon is that of the first such file.
pub fn build_desktop_index(files: &Vec<DesktopSource>) -> (ix: DesktopIndex)
    ensures
        ix.wf(),
        ix.model() == index_fold(files@),
        forall|key: Seq<char>| #[trigger] ix.model().icons.contains_key(key) == (first_index(files@, serves(key)) is Some),
        forall|key: Seq<char>| #[trigger] first_index(files@, serves(key)) is Some
            ==> ix.model().icons[key] == file_icon(files@[first_index(files@, serves(key))->0]),
{
    let mut ix = DesktopIndex { icons: StrMap::new(), execs: StrMap::new() };
    let mut i: usize = 0;
    while i < files.len()
        invariant
            i <= files@.len(),
            ix.wf(),
            ix.model() == index_fold(files@.take(i as int)),
        decreases files@.len() - i,
    {
        proof {
            assert(files@.take(i + 1).drop_last() =~= files@.take(i as int));
            assert(files@.take(i + 1).last() == files@[i as int]);
        }
        let entry = parse_desktop_file(files[i].content.as_str());
        ix.add_file(files[i].path.as_str(), &entry);
        i += 1;
    }
    assert(files@.take(files@.len() as int) =~= files@);
    assert forall|key: Seq<char>| #[trigger] ix.model().icons.contains_key(key) == (first_index(files@, serves(key)) is Some) by {
        law_index_first_file_wins(files@, key);
    }
    assert forall|key: Seq<char>| #[trigger] first_index(files@, serves(key)) is Some
        implies ix.model().icons[key] == file_icon(files@[first_index(files@, serves(key))->0]) by {
        law_index_first_file_wins(files@, key);
    }
    ix
}

/// A desktop file that the index takes in: a `.desktop` file with an `Icon` and an
/// `Exec` key.
pub open spec fn indexes_file(f: DesktopSource) -> bool {
    let entry = spec_parse_desktop_file(f.content@);
    spec_extension(f.path@) == Some("desktop"@) && entry.contains_key("Icon"@) && entry.contains_key("Exec"@)
}

/// The keys such a file is recorded under: its `StartupWMClass`, its executable's name
/// ("steamwebhelper" too for "steam") and its file stem.
pub open spec fn file_keys(f: DesktopSource) -> Set<Seq<char>> {
    let entry = spec_parse_desktop_file(f.content@);
    let b = base_exec(entry["Exec"@]);
    let wm = if entry.contains_key("StartupWMClass"@) { set![entry["StartupWMClass"@]] } else { Set::empty() };
    let steam = if b == "steam"@ { set!["steamwebhelper"@] } else { Set::empty() };
    let stem = match spec_file_stem(f.path@) {
        Some(st) => set![st],
        None => Set::empty(),
    };
    wm + set![b] + steam + stem
}

/// The file is taken into the index and is recorded under `key`.
pub open spec fn serves(key: Seq<char>) -> spec_fn(DesktopSource) -> bool {
    |f: DesktopSource| indexes_file(f) && file_keys(f).contains(key)
}

/// The `Icon` value of a desktop file.
pub open spec fn file_icon(f: DesktopSource) -> Seq<char> {
    spec_parse_desktop_file(f.content@)["Icon"@]
}

proof fn lemma_index_file_at(ix: IndexModel, f: DesktopSource, key: Seq<char>)
    ensures
        serves(key)(f) ==> index_file(ix, f.path@, spec_parse_desktop_file(f.content@)).icons.contains_key(key)
            && index_file(ix, f.path@, spec_parse_desktop_file(f.content@)).icons[key]
                == (if ix.icons.contains_key(key) { ix.icons[key] } else { file_icon(f) }),
        !serves(key)(f) ==> index_file(ix, f.path@, spec_parse_desktop_file(f.content@)).icons.contains_key(key)
            == ix.icons.contains_key(key),
        !serves(key)(f) && ix.icons.contains_key(key) ==> index_file(ix, f.path@, spec_parse_desktop_file(f.content@)).icons[key]
            == ix.icons[key],
{
}

/// Some position satisfies `p`, so a first one does.
proof fn lemma_first_index_some<A>(s: Seq<A>, p: spec_fn(A) -> bool, k: int)
    requires
        0 <= k < s.len(),
        p(s[k]),
    ensures
        first_index(s, p) is Some,
    decreases k,
{
    if exists|m: int| 0 <= m < k && p(s[m]) {
        let m = choose|m: int| 0 <= m < k && p(s[m]);
        lemma_first_index_some(s, p, m);
    } else {
        lemma_first_index(s, p, k);
    }
}

/// The desktop index, and so `get_icon` on an index that `build_desktop_index` built,
/// answers a key with the icon of the first file, in the order the files were read,
/// that the index takes in and that is recorded under that key; a key that no such
/// file is recorded under has no icon.
pub proof fn law_index_first_file_wins(files: Seq<DesktopSource>, key: Seq<char>)
    ensures
        index_fold(files).icons.contains_key(key) == (first_index(files, serves(key)) is Some),
        first_index(files, serves(key)) matches Some(j) ==> index_fold(files).icons[key] == file_icon(files[j]),
    decreases files.len(),
{
    let p = serves(key);
    if files.len() == 0 {
        lemma_first_index_none(files, p);
    } else {
        let d = files.drop_last();
        let f = files.last();
        let n = files.len() - 1;
        law_index_first_file_wins(d, key);
        lemma_index_file_at(index_fold(d), f, key);
        assert(f == files[n]);
        assert(forall|k: int| 0 <= k < n ==> #[trigger] d[k] == files[k]);
        match first_index(d, p) {
            Some(j) => {
                assert(0 <= j < d.len() && p(d[j]) && forall|k: int| 0 <= k < j ==> !p(#[trigger] d[k]));
                assert forall|k: int| 0 <= k < j implies !p(#[trigger] files[k]) by {
                    assert(d[k] == files[k]);
                }
                lemma_first_index(files, p, j);
            },
            None => {
                assert forall|k: int| 0 <= k < n implies !p(#[trigger] files[k]) by {
                    assert(d[k] == files[k]);
                    if p(d[k]) {
                        lemma_first_index_some(d, p, k);
                    }
                }
                if p(f) {
                    lemma_first_index(files, p, n);
                } else {
                    assert forall|k: int| 0 <= k < files.len() implies !p(#[trigger] files[k]) by {
                        if k < n {
                            assert(d[k] == files[k]);
                        }
                    }
                    lemma_first_index_none(files, p);
                }
            },
        }
    }
}

/// The icon recorded for a window class (or executable name, or file stem).
pub fn get_icon(index: &DesktopIndex, app_id: &str) -> (r: Option<String>)
    requires
        index.wf(),
    ensures
        opt_view(r) == (if index.model().icons.contains_key(app_id@) {
            Some(index.model().icons[app_id@])
        } else {
            None
        }),
{
    match index.icons.get(&chars_of(app_id)) {
        Some(v) => Some(string_of(v.as_slice())),
        None => None,
    }
}


// ---------------------------------------------------------------------------
// Finding desktop files and icon names
// ---------------------------------------------------------------------------

/// The first position in `s` whose element satisfies `p`.
pub open spec fn first_index<A>(s: Seq<A>, p: spec_fn(A) -> bool) -> Option<int> {
    if exists|i: int| 0 <= i < s.len() && p(s[i]) && forall|k: int| 0 <= k < i ==> !p(#[trigger] s[k]) {
        Some(choose|i: int| 0 <= i < s.len() && p(s[i]) && forall|k: int| 0 <= k < i ==> !p(#[trigger] s[k]))
    } else {
        None
    }
}

pub proof fn lemma_first_index<A>(s: Seq<A>, p: spec_fn(A) -> bool, i: int)
    requires
        0 <= i < s.len(),
        p(s[i]),
        forall|k: int| 0 <= k < i ==> !p(#[trigger] s[k]),
    ensures
        first_index(s, p) == Some(i),
{
    let c = choose|c: int| 0 <= c < s.len() && p(s[c]) && forall|k: int| 0 <= k < c ==> !p(#[trigger] s[k]);
    if c < i {
        assert(!p(s[c]));
    } else if c > i {
        assert(!p(s[i]));
    }
}

pub proof fn lemma_first_index_none<A>(s: Seq<A>, p: spec_fn(A) -> bool)
    requires
        forall|k: int| 0 <= k < s.len() ==> !p(#[trigger] s[k]),
    ensures
        first_index(s, p) is None,
{
}

/// A desktop file as the search functions see it: its path and its lines.
pub struct DesktopFile {
    pub path: String,
    pub lines: Vec<String>,
}

/// The characters of an optional vector, as a string.
pub fn to_string_opt(o: Option<Vec<char>>) -> (r: Option<String>)
    ensures
        opt_view(r) == opt_chars_view(o),
{
    match o {
        Some(v) => Some(string_of(v.as_slice())),
        None => None,
    }
}

pub open spec fn lines_of(f: DesktopFile) -> Seq<Seq<char>> {
    str_views(f.lines@)
}

pub open spec fn is_desktop_path(p: Seq<char>) -> bool {
    spec_extension(p) == Some("desktop"@)
}

/// The first whitespace-separated word of `s`, or nothing.
pub open spec fn word_or_empty(s: Seq<char>) -> Seq<char> {
    match spec_first_word(s) {
        Some(w) => w,
        None => Seq::empty(),
    }
}

/// A `Name=` line that matches a window title `search`, ignoring case: one name contains
/// the other, or the first word of one starts with the first word of the other.
pub open spec fn name_line_matches(search: Seq<char>, line: Seq<char>) -> bool {
    spec_starts_with(line, "Name="@) && {
        let name = spec_trim(line.skip("Name="@.len() as int));
        let tl = spec_to_lowercase(search);
        let nl = spec_to_lowercase(name);
        spec_contains(tl, nl) || spec_contains(nl, tl) || {
            let tf = word_or_empty(tl);
            let nf = word_or_empty(nl);
            tf.len() > 0 && (spec_starts_with(tf, nf) || spec_starts_with(nf, tf))
        }
    }
}

/// A desktop file whose name matches the window title `search`.
pub open spec fn name_hit(search: Seq<char>) -> spec_fn(DesktopFile) -> bool {
    |f: DesktopFile| is_desktop_path(f.path@) && exists|j: int| 0 <= j < lines_of(f).len() && name_line_matches(search, #[trigger] lines_of(f)[j])
}

/// The stem of the file chosen among `files` by `p`.
pub open spec fn stem_of_first(files: Seq<DesktopFile>, p: spec_fn(DesktopFile) -> bool) -> Option<Seq<char>> {
    match first_index(files, p) {
        Some(i) => spec_file_stem(files[i].path@),
        None => None,
    }
}

fn lower(v: &Vec<char>) -> (r: Vec<char>)
    ensures
        r@ == spec_to_lowercase(v@),
{
    chars_of(to_lowercase(string_of(v.as_slice()).as_str()).as_str())
}

fn word_or_empty_exec(v: &Vec<char>) -> (r: Vec<char>)
    ensures
        r@ == word_or_empty(v@),
{
    match first_word(v) {
        Some(w) => w,
        None => Vec::new(),
    }
}

/// The trimmed text after a `key=` prefix of `line`, when the line has that prefix.
fn value_after(line: &Vec<char>, prefix: &str) -> (r: Option<Vec<char>>)
    ensures
        match r {
            Some(v) => spec_starts_with(line@, prefix@) && v@ == spec_trim(line@.skip(prefix@.len() as int)),
            None => !spec_starts_with(line@, prefix@),
        },
{
    let p = chars_of(prefix);
    if starts_with(line, &p) {
        let rest = slice_chars(line, p.len(), line.len());
        assert(rest@ =~= line@.skip(prefix@.len() as int));
        Some(trim(&rest))
    } else {
        None
    }
}

fn name_line_matches_exec(search: &Vec<char>, line: &Vec<char>) -> (r: bool)
    ensures
        r == name_line_matches(search@, line@),
{
    match value_after(line, "Name=") {
        Some(name) => {
            let tl = lower(search);
            let nl = lower(&name);
            if contains(&tl, &nl) || contains(&nl, &tl) {
                return true;
            }
            let tf = word_or_empty_exec(&tl);
            let nf = word_or_empty_exec(&nl);
            tf.len() > 0 && (starts_with(&tf, &nf) || starts_with(&nf, &tf))
        },
        None => false,
    }
}

fn any_line(f: &DesktopFile, search: &Vec<char>, by_name: bool) -> (r: bool)
    ensures
        by_name ==> r == exists|j: int| 0 <= j < lines_of(*f).len() && name_line_matches(search@, #[trigger] lines_of(*f)[j]),
        !by_name ==> r == exists|j: int| 0 <= j < lines_of(*f).len() && exec_line_matches(search@, #[trigger] lines_of(*f)[j]),
{
    let mut j: usize = 0;
    while j < f.lines.len()
        invariant
            j <= f.lines@.len(),
            by_name ==> forall|k: int| 0 <= k < j ==> !name_line_matches(search@, #[trigger] lines_of(*f)[k]),
            !by_name ==> forall|k: int| 0 <= k < j ==> !exec_line_matches(search@, #[trigger] lines_of(*f)[k]),
        decreases f.lines@.len() - j,
    {
        let l = chars_of(f.lines[j].as_str());
        assert(l@ == lines_of(*f)[j as int]);
        let hit = if by_name { name_line_matches_exec(search, &l) } else { exec_line_matches_exec(search, &l) };
        if hit {
            return true;
        }
        j += 1;
    }
    false
}

fn is_desktop_path_exec(p: &str) -> (r: bool)
    ensures
        r == is_desktop_path(p@),
{
    match extension(p) {
        Some(e) => chars_eq(&e, &chars_of("desktop")),
        None => false,
    }
}

/// The stem of the first desktop file with a `Name=` line matching the window title
/// `search_name` (see `name_line_matches`), among the files in the order they were read.
pub fn find_desktop_file_by_name(search_name: &str, files: &Vec<DesktopFile>) -> (r: Option<String>)
    ensures
        opt_view(r) == stem_of_first(files@, name_hit(search_name@)),
{
    let search = chars_of(search_name);
    let mut i: usize = 0;
    while i < files.len()
        invariant
            i <= files@.len(),
            search@ == search_name@,
            forall|k: int| 0 <= k < i ==> !name_hit(search_name@)(#[trigger] files@[k]),
        decreases files@.len() - i,
    {
        if is_desktop_path_exec(files[i].path.as_str()) && any_line(&files[i], &search, true) {
            proof { lemma_first_index(files@, name_hit(search_name@), i as int); }
            return to_string_opt(file_stem(files[i].path.as_str()));
        }
        i += 1;
    }
    proof { lemma_first_index_none(files@, name_hit(search_name@)); }
    None
}

/// An app id without what follows its first `_`, lowercased.
pub open spec fn clean_app_id(app_id: Seq<char>) -> Seq<char> {
    spec_to_lowercase(app_id.take(span_len(app_id, not_char('_')) as int))
}

/// An `Exec=` line whose executable name contains the cleaned app id `clean`, or is
/// contained in it.
pub open spec fn exec_line_matches(clean: Seq<char>, line: Seq<char>) -> bool {
    spec_starts_with(line, "Exec="@) && {
        let el = spec_to_lowercase(spec_trim(line.skip("Exec="@.len() as int)));
        match spec_first_word(el) {
            Some(bp) => {
                let bn = match spec_path_file_name(bp) {
                    Some(n) => n,
                    None => bp,
                };
                spec_contains(bn, clean) || spec_contains(clean, bn)
            },
            None => false,
        }
    }
}

fn exec_line_matches_exec(clean: &Vec<char>, line: &Vec<char>) -> (r: bool)
    ensures
        r == exec_line_matches(clean@, line@),
{
    match value_after(line, "Exec=") {
        Some(v) => {
            let el = lower(&v);
            match first_word(&el) {
                Some(bp) => {
                    let bn = match path_file_name(string_of(bp.as_slice()).as_str()) {
                        Some(n) => chars_of(n.as_str()),
                        None => bp,
                    };
                    contains(&bn, clean) || contains(clean, &bn)
                },
                None => false,
            }
        },
        None => false,
    }
}

pub open spec fn exec_hit(clean: Seq<char>) -> spec_fn(DesktopFile) -> bool {
    |f: DesktopFile| is_desktop_path(f.path@) && exists|j: int| 0 <= j < lines_of(f).len() && exec_line_matches(clean, #[trigger] lines_of(f)[j])
}

proof fn lemma_span_prefix(a: Seq<char>, rest: Seq<char>, f: spec_fn(char) -> bool)
    requires
        forall|i: int| 0 <= i < a.len() ==> f(#[trigger] a[i]),
    ensures
        span_len(a + rest, f) == a.len() + span_len(rest, f),
    decreases a.len(),
{
    if a.len() == 0 {
        assert(a + rest =~= rest);
    } else {
        assert((a + rest).drop_first() =~= a.drop_first() + rest);
        assert((a + rest)[0] == a[0]);
        assert forall|i: int| 0 <= i < a.drop_first().len() implies f(#[trigger] a.drop_first()[i]) by {
            assert(a.drop_first()[i] == a[i + 1]);
        }
        lemma_span_prefix(a.drop_first(), rest, f);
    }
}

/// Whatever follows a `_` after an app id that has none is ignored when desktop files
/// are looked up by their `Exec=` command: the app id with the suffix finds the same
/// file as the app id alone.
pub proof fn law_exec_lookup_ignores_suffix(a: Seq<char>, t: Seq<char>, files: Seq<DesktopFile>)
    requires
        !a.contains('_'),
    ensures
        stem_of_first(files, exec_hit(clean_app_id(a + seq!['_'] + t)))
            == stem_of_first(files, exec_hit(clean_app_id(a))),
{
    let f = not_char('_');
    assert forall|i: int| 0 <= i < a.len() implies f(#[trigger] a[i]) by {
        if a[i] == '_' {
            assert(a.contains('_'));
        }
    }
    let rest = seq!['_'] + t;
    lemma_span_prefix(a, rest, f);
    assert(rest[0] == '_');
    assert(span_len(rest, f) == 0);
    assert(a + seq!['_'] + t =~= a + rest);
    lemma_span_prefix(a, Seq::<char>::empty(), f);
    assert(a + Seq::<char>::empty() =~= a);
    assert((a + rest).take(a.len() as int) =~= a);
    assert(a.take(a.len() as int) =~= a);
}

/// The stem of the first desktop file whose `Exec=` command names the app: compositors
/// often append `_` and a number to app ids, so only the part before the first `_`
/// counts, in lowercase.
pub fn find_desktop_file_by_exec(app_id: &str, files: &Vec<DesktopFile>) -> (r: Option<String>)
    ensures
        opt_view(r) == stem_of_first(files@, exec_hit(clean_app_id(app_id@))),
{
    let a = chars_of(app_id);
    let cut = find_char(&a, '_');
    let head = slice_chars(&a, 0, cut);
    assert(head@ =~= app_id@.take(span_len(app_id@, not_char('_')) as int));
    let clean = lower(&head);
    let mut i: usize = 0;
    while i < files.len()
        invariant
            i <= files@.len(),
            clean@ == clean_app_id(app_id@),
            forall|k: int| 0 <= k < i ==> !exec_hit(clean_app_id(app_id@))(#[trigger] files@[k]),
        decreases files@.len() - i,
    {
        if is_desktop_path_exec(files[i].path.as_str()) && any_line(&files[i], &clean, false) {
            proof { lemma_first_index(files@, exec_hit(clean_app_id(app_id@)), i as int); }
            return to_string_opt(file_stem(files[i].path.as_str()));
        }
        i += 1;
    }
    proof { lemma_first_index_none(files@, exec_hit(clean_app_id(app_id@))); }
    None
}

/// Scanning lines for the icon of the app named `search`: the latest `Name=` and
/// `Icon=` values so far are tracked, and the icon is taken as soon as the name matches
/// (ignoring ASCII case) and an icon is known.
pub open spec fn icon_search(lines: Seq<Seq<char>>, name: Seq<char>, icon: Seq<char>, search: Seq<char>) -> Option<Seq<char>>
    decreases lines.len(),
{
    if lines.len() == 0 {
        None
    } else {
        let l = lines[0];
        let n2 = if spec_starts_with(l, "Name="@) { spec_trim(l.skip("Name="@.len() as int)) } else { name };
        let i2 = if spec_starts_with(l, "Icon="@) { spec_trim(l.skip("Icon="@.len() as int)) } else { icon };
        if spec_eq_ignore_ascii_case(n2, search) && i2.len() > 0 {
            Some(i2)
        } else {
            icon_search(lines.drop_first(), n2, i2, search)
        }
    }
}

pub open spec fn icon_hit(search: Seq<char>) -> spec_fn(DesktopFile) -> bool {
    |f: DesktopFile| is_desktop_path(f.path@) && icon_search(lines_of(f), Seq::empty(), Seq::empty(), search) is Some
}

fn icon_in_file(f: &DesktopFile, search: &Vec<char>) -> (r: Option<Vec<char>>)
    ensures
        opt_chars_view(r) == icon_search(lines_of(*f), Seq::empty(), Seq::empty(), search@),
{
    let mut name: Vec<char> = Vec::new();
    let mut icon: Vec<char> = Vec::new();
    let mut j: usize = 0;
    assert(lines_of(*f).skip(0) =~= lines_of(*f));
    while j < f.lines.len()
        invariant
            j <= f.lines@.len(),
            icon_search(lines_of(*f), Seq::empty(), Seq::empty(), search@) == icon_search(lines_of(*f).skip(j as int), name@, icon@, search@),
        decreases f.lines@.len() - j,
    {
        let l = chars_of(f.lines[j].as_str());
        proof {
            let rest = lines_of(*f).skip(j as int);
            assert(rest[0] == l@);
            assert(rest.drop_first() =~= lines_of(*f).skip(j + 1));
        }
        match value_after(&l, "Name=") {
            Some(v) => { name = v; },
            None => {},
        }
        match value_after(&l, "Icon=") {
            Some(v) => { icon = v; },
            None => {},
        }
        if eq_ignore_ascii_case(&name, search) && icon.len() > 0 {
            return Some(icon);
        }
        j += 1;
    }
    assert(lines_of(*f).skip(j as int) =~= Seq::<Seq<char>>::empty());
    None
}

/// The icon named in the first desktop file whose `Name=` equals `search_name`,
/// ignoring ASCII case (see `icon_search`).
pub fn find_icon_by_name(search_name: &str, files: &Vec<DesktopFile>) -> (r: Option<String>)
    ensures
        opt_view(r) == (match first_index(files@, icon_hit(search_name@)) {
            Some(i) => icon_search(lines_of(files@[i]), Seq::empty(), Seq::empty(), search_name@),
            None => None,
        }),
{
    let search = chars_of(search_name);
    let mut i: usize = 0;
    while i < files.len()
        invariant
            i <= files@.len(),
            search@ == search_name@,
            forall|k: int| 0 <= k < i ==> !icon_hit(search_name@)(#[trigger] files@[k]),
        decreases files@.len() - i,
    {
        if is_desktop_path_exec(files[i].path.as_str()) {
            let r = icon_in_file(&files[i], &search);
            if r.is_some() {
                proof { lemma_first_index(files@, icon_hit(search_name@), i as int); }
                return to_string_opt(r);
            }
        }
        i += 1;
    }
    proof { lemma_first_index_none(files@, icon_hit(search_name@)); }
    None
}

pub open spec fn is_icon_line() -> spec_fn(Seq<char>) -> bool {
    |l: Seq<char>| spec_starts_with(l, "Icon="@)
}

/// The value of the first `Icon=` line, trimmed.
pub open spec fn first_icon_entry(lines: Seq<Seq<char>>) -> Option<Seq<char>> {
    match first_index(lines, is_icon_line()) {
        Some(j) => Some(spec_trim(lines[j].skip("Icon="@.len() as int))),
        None => None,
    }
}

fn first_icon_entry_exec(lines: &Vec<String>) -> (r: Option<Vec<char>>)
    ensures
        opt_chars_view(r) == first_icon_entry(str_views(lines@)),
{
    let mut j: usize = 0;
    while j < lines.len()
        invariant
            j <= lines@.len(),
            forall|k: int| 0 <= k < j ==> !is_icon_line()(#[trigger] str_views(lines@)[k]),
        decreases lines@.len() - j,
    {
        let l = chars_of(lines[j].as_str());
        assert(l@ == str_views(lines@)[j as int]);
        match value_after(&l, "Icon=") {
            Some(v) => {
                proof { lemma_first_index(str_views(lines@), is_icon_line(), j as int); }
                return Some(v);
            },
            None => {},
        }
        j += 1;
    }
    proof { lemma_first_index_none(str_views(lines@), is_icon_line()); }
    None
}

/// What the icon listing shows for a desktop file's text: the value of its first
/// `Icon=` line as written, or `None` when it has no such line.
pub open spec fn spec_listed_icon(content: Seq<char>) -> Seq<char> {
    let lines = spec_lines(content);
    match first_index(lines, is_icon_line()) {
        Some(j) => lines[j].skip("Icon="@.len() as int),
        None => "None"@,
    }
}

/// The icon value the listing shows for a desktop file with text `content`.
pub fn listed_icon(content: &str) -> (r: String)
    ensures
        r@ == spec_listed_icon(content@),
{
    let lines = split_lines(content);
    let p = chars_of("Icon=");
    let mut j: usize = 0;
    while j < lines.len()
        invariant
            j <= lines@.len(),
            p@ == "Icon="@,
            views(lines@) == spec_lines(content@),
            forall|k: int| 0 <= k < j ==> !is_icon_line()(#[trigger] views(lines@)[k]),
        decreases lines@.len() - j,
    {
        assert(views(lines@)[j as int] == lines@[j as int]@);
        if starts_with(&lines[j], &p) {
            proof { lemma_first_index(views(lines@), is_icon_line(), j as int); }
            let rest = slice_chars(&lines[j], p.len(), lines[j].len());
            assert(rest@ =~= lines@[j as int]@.skip("Icon="@.len() as int));
            return string_of(rest.as_slice());
        }
        j += 1;
    }
    proof { lemma_first_index_none(views(lines@), is_icon_line()); }
    String::from_str("None")
}

pub open spec fn opt_lines(o: Option<Vec<String>>) -> Option<Seq<Seq<char>>> {
    match o {
        Some(v) => Some(str_views(v@)),
        None => None,
    }
}

pub open spec fn has_icon_entry() -> spec_fn(Option<Seq<Seq<char>>>) -> bool {
    |o: Option<Seq<Seq<char>>>| o is Some && first_icon_entry(o->0) is Some
}

/// The icon of a desktop file looked up in several places: `candidates` holds, for each
/// place in search order, the lines of the file there (`None` when it is missing or
/// unreadable).  The first file with an `Icon=` line gives the icon.
pub fn get_icon_from_desktop(candidates: &Vec<Option<Vec<String>>>) -> (r: Option<String>)
    ensures
        opt_view(r) == (match first_index(candidates@.map_values(|o: Option<Vec<String>>| opt_lines(o)), has_icon_entry()) {
            Some(i) => first_icon_entry(opt_lines(candidates@[i])->0),
            None => None,
        }),
{
    let ghost cs = candidates@.map_values(|o: Option<Vec<String>>| opt_lines(o));
    let mut i: usize = 0;
    while i < candidates.len()
        invariant
            i <= candidates@.len(),
            cs == candidates@.map_values(|o: Option<Vec<String>>| opt_lines(o)),
            forall|k: int| 0 <= k < i ==> !has_icon_entry()(#[trigger] cs[k]),
        decreases candidates@.len() - i,
    {
        match &candidates[i] {
            Some(lines) => {
                let r = first_icon_entry_exec(lines);
                if r.is_some() {
                    proof { lemma_first_index(cs, has_icon_entry(), i as int); }
                    return to_string_opt(r);
                }
            },
            None => {},
        }
        i += 1;
    }
    proof { lemma_first_index_none(cs, has_icon_entry()); }
    None
}


// ---------------------------------------------------------------------------
// Where desktop files are looked for
// ---------------------------------------------------------------------------

/// `s` split at every `c` (`str::split` with a character): empty pieces included.
pub open spec fn spec_split(s: Seq<char>, c: char) -> Seq<Seq<char>>
    decreases s.len(),
{
    let a = span_len(s, not_char(c));
    if a >= s.len() {
        seq![s]
    } else {
        seq![s.take(a as int)] + spec_split(s.skip((a + 1) as int), c)
    }
}

/// Splits `v` at every `c`.
pub fn split_chars(v: &Vec<char>, c: char) -> (r: Vec<Vec<char>>)
    ensures
        views(r@) == spec_split(v@, c),
        r@.len() >= 1,
{
    let n = v.len();
    let mut out: Vec<Vec<char>> = Vec::new();
    let mut pos: usize = 0;
    assert(v@.skip(0) =~= v@);
    loop
        invariant_except_break
            n == v@.len(),
            pos <= n,
            views(out@) + spec_split(v@.skip(pos as int), c) == spec_split(v@, c),
        ensures
            views(out@) == spec_split(v@, c),
            out@.len() >= 1,
        decreases n - pos,
    {
        let ghost rest = v@.skip(pos as int);
        let k = find_char_from(v, pos, c);
        let piece = slice_chars(v, pos, k);
        let ghost before = views(out@);
        out.push(piece);
        assert(views(out@) =~= before.push(v@.subrange(pos as int, k as int)));
        if k < n {
            proof {
                assert(rest.take((k - pos) as int) =~= v@.subrange(pos as int, k as int));
                assert(rest.skip((k - pos + 1) as int) =~= v@.skip(k + 1));
                assert(before + spec_split(rest, c) =~= views(out@) + spec_split(v@.skip(k + 1), c));
            }
            pos = k + 1;
        } else {
            proof {
                assert(rest =~= v@.subrange(pos as int, n as int));
                assert(before + spec_split(rest, c) =~= views(out@));
            }
            break;
        }
    }
    out
}

pub open spec fn default_data_dirs() -> Seq<char> {
    "/usr/local/share:/usr/share"@
}

/// Where applications' desktop files are looked for: `applications` under each entry of
/// `XDG_DATA_DIRS` (default `/usr/local/share:/usr/share`), preceded by
/// `~/.local/share/applications` when `HOME` is set.
pub open spec fn spec_application_dirs(xdg_data_dirs: Option<Seq<char>>, home: Option<Seq<char>>) -> Seq<Seq<char>> {
    let dirs = match xdg_data_dirs {
        Some(x) => x,
        None => default_data_dirs(),
    };
    let base = spec_split(dirs, ':').map_values(|d: Seq<char>| spec_path_join(d, "applications"@));
    match home {
        Some(h) => seq![spec_path_join(h, ".local/share/applications"@)] + base,
        None => base,
    }
}

pub open spec fn opt_str_view(o: Option<&str>) -> Option<Seq<char>> {
    match o {
        Some(s) => Some(s@),
        None => None,
    }
}

/// The directories searched for desktop files, given `XDG_DATA_DIRS` and `HOME`.
pub fn application_dirs(xdg_data_dirs: Option<&str>, home: Option<&str>) -> (r: Vec<String>)
    ensures
        str_views(r@) == spec_application_dirs(opt_str_view(xdg_data_dirs), opt_str_view(home)),
{
    let dirs = match xdg_data_dirs {
        Some(x) => chars_of(x),
        None => chars_of("/usr/local/share:/usr/share"),
    };
    let pieces = split_chars(&dirs, ':');
    let ghost ps = spec_split(dirs@, ':');
    let mut out: Vec<String> = Vec::new();
    match home {
        Some(h) => {
            out.push(path_join(h, ".local/share/applications"));
        },
        None => {},
    }
    let ghost head = str_views(out@);
    let mut i: usize = 0;
    while i < pieces.len()
        invariant
            i <= pieces@.len(),
            views(pieces@) == ps,
            str_views(out@) == head + ps.take(i as int).map_values(|d: Seq<char>| spec_path_join(d, "applications"@)),
        decreases pieces@.len() - i,
    {
        let d = string_of(pieces[i].as_slice());
        let j = path_join(d.as_str(), "applications");
        let ghost before = str_views(out@);
        out.push(j);
        proof {
            assert(str_views(out@) =~= before.push(j@));
            assert(ps.take(i + 1).map_values(|d: Seq<char>| spec_path_join(d, "applications"@))
                =~= ps.take(i as int).map_values(|d: Seq<char>| spec_path_join(d, "applications"@)).push(spec_path_join(ps[i as int], "applications"@)));
        }
        i += 1;
    }
    assert(ps.take(pieces@.len() as int) =~= ps);
    assert(str_views(out@) =~= spec_application_dirs(opt_str_view(xdg_data_dirs), opt_str_view(home)));
    out
}

fn concat2(a: &str, b: &str) -> (r: String)
    ensures
        r@ == a@ + b@,
{
    let mut s = String::new();
    crate::persistence::push_str(&mut s, a);
    crate::persistence::push_str(&mut s, b);
    assert(s@ =~= a@ + b@);
    s
}

fn concat3(a: &str, b: &str, c: &str) -> (r: String)
    ensures
        r@ == a@ + b@ + c@,
{
    let mut s = String::new();
    crate::persistence::push_str(&mut s, a);
    crate::persistence::push_str(&mut s, b);
    crate::persistence::push_str(&mut s, c);
    assert(s@ =~= a@ + b@ + c@);
    s
}

/// The paths of the desktop file of `desktop_id` in each search directory.
pub fn desktop_file_paths(search_dirs: &Vec<String>, desktop_id: &str) -> (r: Vec<String>)
    ensures
        str_views(r@) == str_views(search_dirs@).map_values(|d: Seq<char>| spec_path_join(d, desktop_id@ + ".desktop"@)),
{
    let name = concat2(desktop_id, ".desktop");
    let mut out: Vec<String> = Vec::new();
    let mut i: usize = 0;
    while i < search_dirs.len()
        invariant
            i <= search_dirs@.len(),
            name@ == desktop_id@ + ".desktop"@,
            str_views(out@) == str_views(search_dirs@).take(i as int).map_values(|d: Seq<char>| spec_path_join(d, desktop_id@ + ".desktop"@)),
        decreases search_dirs@.len() - i,
    {
        let j = path_join(search_dirs[i].as_str(), name.as_str());
        let ghost before = str_views(out@);
        out.push(j);
        proof {
            assert(str_views(out@) =~= before.push(j@));
            assert(str_views(search_dirs@).take(i + 1).map_values(|d: Seq<char>| spec_path_join(d, desktop_id@ + ".desktop"@))
                =~= str_views(search_dirs@).take(i as int).map_values(|d: Seq<char>| spec_path_join(d, desktop_id@ + ".desktop"@)).push(
                spec_path_join(search_dirs@[i as int]@, desktop_id@ + ".desktop"@)));
        }
        i += 1;
    }
    assert(str_views(search_dirs@).take(search_dirs@.len() as int) =~= str_views(search_dirs@));
    out
}

/// The desktop file names tried for an app id: its lowercase form, and the GNOME, KDE
/// and `com.` reverse-domain forms.
pub open spec fn spec_icon_candidates(app_id: Seq<char>) -> Seq<Seq<char>> {
    seq![
        spec_to_lowercase(app_id) + ".desktop"@,
        "org.gnome."@ + app_id + ".desktop"@,
        "org.kde."@ + app_id + ".desktop"@,
        "com."@ + app_id + ".desktop"@,
    ]
}

/// The desktop file names tried for `app_id`.
pub fn icon_candidates(app_id: &str) -> (r: Vec<String>)
    ensures
        str_views(r@) == spec_icon_candidates(app_id@),
{
    let low = to_lowercase(app_id);
    let mut out: Vec<String> = Vec::new();
    out.push(concat2(low.as_str(), ".desktop"));
    out.push(concat3("org.gnome.", app_id, ".desktop"));
    out.push(concat3("org.kde.", app_id, ".desktop"));
    out.push(concat3("com.", app_id, ".desktop"));
    assert(str_views(out@) =~= spec_icon_candidates(app_id@));
    out
}

/// The desktop file names the window monitors try for an app id: as given, in
/// lowercase, and the GNOME and KDE reverse-domain forms.
pub open spec fn spec_monitor_candidates(app_id: Seq<char>) -> Seq<Seq<char>> {
    seq![
        app_id + ".desktop"@,
        spec_to_lowercase(app_id) + ".desktop"@,
        "org.gnome."@ + app_id + ".desktop"@,
        "org.kde."@ + app_id + ".desktop"@,
    ]
}

/// The desktop file names the window monitors try for `app_id`.
pub fn monitor_candidates(app_id: &str) -> (r: Vec<String>)
    ensures
        str_views(r@) == spec_monitor_candidates(app_id@),
{
    let low = to_lowercase(app_id);
    let mut out: Vec<String> = Vec::new();
    out.push(concat2(app_id, ".desktop"));
    out.push(concat2(low.as_str(), ".desktop"));
    out.push(concat3("org.gnome.", app_id, ".desktop"));
    out.push(concat3("org.kde.", app_id, ".desktop"));
    assert(str_views(out@) =~= spec_monitor_candidates(app_id@));
    out
}

/// The icon name a window monitor shows for an app: `unknown-icon` for an app
/// without id, else the icon found in its desktop file, else the app id itself.
pub fn monitor_icon_name(app_id: &str, found: Option<String>) -> (r: String)
    ensures
        r@ == (if app_id@.len() == 0 {
            "unknown-icon"@
        } else {
            match opt_view(found) {
                Some(i) => i,
                None => app_id@,
            }
        }),
{
    if chars_of(app_id).len() == 0 {
        return String::from_str("unknown-icon");
    }
    match found {
        Some(i) => i,
        None => String::from_str(app_id),
    }
}

/// Every candidate name in every search directory, directory by directory.
pub open spec fn spec_candidate_paths(dirs: Seq<Seq<char>>, names: Seq<Seq<char>>) -> Seq<Seq<char>>
    decreases dirs.len(),
{
    if dirs.len() == 0 {
        Seq::empty()
    } else {
        spec_candidate_paths(dirs.drop_last(), names) + names.map_values(|n: Seq<char>| spec_path_join(dirs.last(), n))
    }
}

/// The paths tried for the candidate names in the search directories, in search order.
pub fn candidate_paths(search_dirs: &Vec<String>, names: &Vec<String>) -> (r: Vec<String>)
    ensures
        str_views(r@) == spec_candidate_paths(str_views(search_dirs@), str_views(names@)),
{
    let mut out: Vec<String> = Vec::new();
    let mut i: usize = 0;
    while i < search_dirs.len()
        invariant
            i <= search_dirs@.len(),
            str_views(out@) == spec_candidate_paths(str_views(search_dirs@).take(i as int), str_views(names@)),
        decreases search_dirs@.len() - i,
    {
        proof {
            assert(str_views(search_dirs@).take(i + 1).drop_last() =~= str_views(search_dirs@).take(i as int));
        }
        let ghost head = str_views(out@);
        let mut j: usize = 0;
        while j < names.len()
            invariant
                j <= names@.len(),
                i < search_dirs@.len(),
                str_views(out@) == head + str_views(names@).take(j as int).map_values(|n: Seq<char>| spec_path_join(search_dirs@[i as int]@, n)),
            decreases names@.len() - j,
        {
            let p = path_join(search_dirs[i].as_str(), names[j].as_str());
            let ghost before = str_views(out@);
            out.push(p);
            proof {
                assert(str_views(out@) =~= before.push(p@));
                assert(str_views(names@).take(j + 1).map_values(|n: Seq<char>| spec_path_join(search_dirs@[i as int]@, n))
                    =~= str_views(names@).take(j as int).map_values(|n: Seq<char>| spec_path_join(search_dirs@[i as int]@, n)).push(
                    spec_path_join(search_dirs@[i as int]@, names@[j as int]@)));
            }
            j += 1;
        }
        assert(str_views(names@).take(names@.len() as int) =~= str_views(names@));
        i += 1;
    }
    assert(str_views(search_dirs@).take(search_dirs@.len() as int) =~= str_views(search_dirs@));
    out
}

/// The icon name for an app id, from the lookups in their order of preference: its own
/// desktop file, a desktop file with one of the candidate names, the desktop file found
/// through its executable; failing all of them, the app id itself.
pub fn extract_icon_name(app_id: &str, from_own_file: Option<String>, from_candidates: Option<String>, from_exec: Option<String>) -> (r: String)
    ensures
        r@ == (match opt_view(from_own_file) {
            Some(i) => i,
            None => match opt_view(from_candidates) {
                Some(i) => i,
                None => match opt_view(from_exec) {
                    Some(i) => i,
                    None => app_id@,
                },
            },
        }),
{
    match from_own_file {
        Some(i) => i,
        None => match from_candidates {
            Some(i) => i,
            None => match from_exec {
                Some(i) => i,
                None => String::from_str(app_id),
            },
        },
    }
}

/// `first_index` finds the first position satisfying `p`, which is no later than any
/// position known to satisfy it.
pub proof fn lemma_first_index_at_most<A>(s: Seq<A>, p: spec_fn(A) -> bool, k: int)
    requires
        0 <= k < s.len(),
        p(s[k]),
    ensures
        first_index(s, p) matches Some(j) && 0 <= j <= k && p(s[j]),
{
    lemma_first_index_some(s, p, k);
    let j = choose|i: int| 0 <= i < s.len() && p(s[i]) && forall|m: int| 0 <= m < i ==> !p(#[trigger] s[m]);
    assert(first_index(s, p) == Some(j));
    if j > k {
        assert(!p(s[k]));
    }
}

/// A desktop file with an `Exec=` line whose program's file name (lowercased) is part
/// of the cleaned app id is found by the lookup by command: the lookup stops at it or at
/// an earlier match.  So `org.gnome.Nautilus` finds a file that runs `nautilus`.
pub proof fn law_exec_lookup_finds_contained_binary(app_id: Seq<char>, files: Seq<DesktopFile>, i: int, k: int, bp: Seq<char>)
    requires
        0 <= i < files.len(),
        is_desktop_path(files[i].path@),
        0 <= k < lines_of(files[i]).len(),
        spec_starts_with(lines_of(files[i])[k], "Exec="@),
        spec_first_word(spec_to_lowercase(spec_trim(lines_of(files[i])[k].skip(5)))) == Some(bp),
        spec_contains(clean_app_id(app_id), match spec_path_file_name(bp) {
            Some(n) => n,
            None => bp,
        }),
    ensures
        first_index(files, exec_hit(clean_app_id(app_id))) matches Some(j) && 0 <= j <= i,
{
    let clean = clean_app_id(app_id);
    let line = lines_of(files[i])[k];
    assert("Exec="@.len() == 5) by {
        reveal_strlit("Exec=");
    }
    assert(exec_line_matches(clean, line));
    assert(exec_hit(clean)(files[i]));
    lemma_first_index_at_most(files, exec_hit(clean), i);
}

} // verus!

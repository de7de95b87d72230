//! Where the dock keeps its pins and cached icons, and the formats it keeps them in.
use vstd::prelude::*;
use crate::layout::str_views;
use crate::paths::{path_join, spec_path_join};
use crate::text::{chars_of, chars_eq, push_char};

verus! {

/// What `serde_json::from_str::<HashSet<String>>` yields for `text`: the set of strings
/// of a JSON array of strings, or `None` when `text` is not one.
pub uninterp spec fn spec_json_string_set(text: Seq<char>) -> Option<Set<Seq<char>>>;

/// The lowercase hexadecimal digit for `v` (below 16).
pub open spec fn hex_digit(v: int) -> char {
    if v < 10 { (48 + v) as char } else { (87 + v) as char }
}

/// How `serde_json` writes one character inside a string: `"` and `\` and the control
/// characters below U+0020 are escaped (`\b`, `\f`, `\n`, `\r`, `\t` where JSON has a
/// short form, else `\u00` and two lowercase hex digits); anything else is itself.
pub open spec fn json_escape_char(c: char) -> Seq<char> {
    let v = c as int;
    if c == '"' {
        seq!['\\', '"']
    } else if c == '\\' {
        seq!['\\', '\\']
    } else if v == 8 {
        seq!['\\', 'b']
    } else if v == 12 {
        seq!['\\', 'f']
    } else if v == 10 {
        seq!['\\', 'n']
    } else if v == 13 {
        seq!['\\', 'r']
    } else if v == 9 {
        seq!['\\', 't']
    } else if v < 32 {
        seq!['\\', 'u', '0', '0', hex_digit(v / 16), hex_digit(v % 16)]
    } else {
        seq![c]
    }
}

/// The characters of a string, each escaped.
pub open spec fn json_escape(s: Seq<char>) -> Seq<char>
    decreases s.len(),
{
    if s.len() == 0 {
        Seq::empty()
    } else {
        json_escape(s.drop_last()) + json_escape_char(s.last())
    }
}

/// A string as a JSON string literal: quoted, each character escaped.
pub open spec fn json_quoted(s: Seq<char>) -> Seq<char> {
    seq!['"'] + json_escape(s) + seq!['"']
}

/// The string literals of `items`, separated by commas.
pub open spec fn json_items(items: Seq<Seq<char>>) -> Seq<char>
    decreases items.len(),
{
    if items.len() == 0 {
        Seq::empty()
    } else if items.len() == 1 {
        json_quoted(items[0])
    } else {
        json_items(items.drop_last()) + seq![','] + json_quoted(items.last())
    }
}

/// What `serde_json::to_string` writes for a list of strings: a JSON array of their
/// string literals, in order, with no spaces.
pub open spec fn spec_json_string_array(items: Seq<Seq<char>>) -> Seq<char> {
    seq!['['] + json_items(items) + seq![']']
}

/// Calls `serde_json::from_str::<HashSet<String>>` and lists the set it yields.
/// The order of the list is that of the set's iteration, which nothing here fixes.
/// Text that `serde_json::to_string` wrote for a list of strings parses back to the
/// set of those strings: serde_json escapes every string it writes and unescapes it
/// on reading.
#[verifier::external_body]
fn parse_json_string_set(text: &str) -> (r: Option<Vec<String>>)
    ensures
        r is Some <==> spec_json_string_set(text@) is Some,
        r matches Some(v) ==> str_views(v@).to_set() == spec_json_string_set(text@)->0 && str_views(v@).no_duplicates(),
        r is None ==> forall|items: Seq<Seq<char>>| #[trigger] spec_json_string_array(items) != text@,
        r matches Some(v) ==> forall|items: Seq<Seq<char>>| #[trigger] spec_json_string_array(items) == text@
            ==> str_views(v@).to_set() == items.to_set(),
{
    match serde_json::from_str::<std::collections::HashSet<String>>(text) {
        Ok(set) => Some(set.into_iter().collect()),
        Err(_) => None,
    }
}

/// Calls `serde_json::to_string` on a list of strings (which cannot fail for strings);
/// its compact formatter writes the array as `spec_json_string_array` says.
#[verifier::external_body]
fn json_string_array(items: &Vec<String>) -> (r: String)
    ensures
        r@ == spec_json_string_array(str_views(items@)),
{
    match serde_json::to_string(items) {
        Ok(s) => s,
        Err(_) => String::new(),
    }
}

/// Appends the characters of `t` to `s`.
pub fn push_str(s: &mut String, t: &str)
    ensures
        final(s)@ == old(s)@ + t@,
{
    let v = chars_of(t);
    let mut i: usize = 0;
    while i < v.len()
        invariant
            i <= v@.len(),
            v@ == t@,
            s@ == old(s)@ + v@.take(i as int),
        decreases v@.len() - i,
    {
        push_char(s, v[i]);
        i += 1;
        assert(s@ =~= old(s)@ + v@.take(i as int));
    }
    assert(v@.take(v@.len() as int) =~= v@);
}

/// The dock's configuration directory: `$HOME/.config/dockman`, with `/tmp` standing in
/// for an unset `HOME`.
pub open spec fn spec_config_dir(home: Option<Seq<char>>) -> Seq<char> {
    let base = match home {
        Some(h) => h,
        None => "/tmp"@,
    };
    base + "/.config/dockman"@
}

/// The configuration directory for the given value of `HOME`.
pub fn get_config_dir(home: Option<&str>) -> (r: String)
    ensures
        r@ == spec_config_dir(match home {
            Some(h) => Some(h@),
            None => None,
        }),
{
    let mut s = String::new();
    match home {
        Some(h) => push_str(&mut s, h),
        None => push_str(&mut s, "/tmp"),
    }
    push_str(&mut s, "/.config/dockman");
    s
}

/// The file holding the pinned apps: `pins.json` in the configuration directory.
pub fn get_config_path(home: Option<&str>) -> (r: String)
    ensures
        r@ == spec_config_dir(match home {
            Some(h) => Some(h@),
            None => None,
        }) + "/pins.json"@,
{
    let mut s = get_config_dir(home);
    push_str(&mut s, "/pins.json");
    s
}

/// The pinned apps stored as `content` (`None` when the file could not be read): the
/// strings of its JSON array, or none at all when it is not one.  Reading back the
/// text that `save_pinned_apps` wrote gives the pins that were saved.
pub fn load_pinned_apps(content: Option<&str>) -> (r: Vec<String>)
    ensures
        str_views(r@).no_duplicates(),
        forall|items: Seq<Seq<char>>| content matches Some(c) && #[trigger] spec_json_string_array(items) == c@
            ==> str_views(r@).to_set() == items.to_set(),
        str_views(r@).to_set() == (match content {
            Some(c) => match spec_json_string_set(c@) {
                Some(set) => set,
                None => Set::empty(),
            },
            None => Set::empty(),
        }),
{
    let empty: Vec<String> = Vec::new();
    assert(str_views(empty@) =~= Seq::<Seq<char>>::empty());
    assert(str_views(empty@).to_set() =~= Set::<Seq<char>>::empty());
    match content {
        Some(c) => match parse_json_string_set(c) {
            Some(v) => v,
            None => empty,
        },
        None => empty,
    }
}

/// The text the pins are saved as: a JSON array of them.
pub fn save_pinned_apps(pinned: &Vec<String>) -> (r: String)
    ensures
        r@ == spec_json_string_array(str_views(pinned@)),
{
    json_string_array(pinned)
}

/// The directory of cached icons: `.config/dockman/cached_icons` under `$HOME`, with the
/// current directory standing in for an unset `HOME`, each part joined as a path component.
pub open spec fn spec_cache_dir(home: Option<Seq<char>>) -> Seq<char> {
    let base = match home {
        Some(h) => h,
        None => "."@,
    };
    spec_path_join(spec_path_join(spec_path_join(base, ".config"@), "dockman"@), "cached_icons"@)
}

/// The cached-icon directory for the given value of `HOME`.
pub fn get_cache_dir(home: Option<&str>) -> (r: String)
    ensures
        r@ == spec_cache_dir(match home {
            Some(h) => Some(h@),
            None => None,
        }),
{
    let base = match home {
        Some(h) => String::from_str(h),
        None => String::from_str("."),
    };
    let a = path_join(base.as_str(), ".config");
    let b = path_join(a.as_str(), "dockman");
    path_join(b.as_str(), "cached_icons")
}

/// The file caching the icon of `app_id`: `<app_id>.raw` in the cached-icon directory.
pub fn cached_icon_path(home: Option<&str>, app_id: &str) -> (r: String)
    ensures
        r@ == spec_path_join(spec_cache_dir(match home {
            Some(h) => Some(h@),
            None => None,
        }), app_id@ + ".raw"@),
{
    let dir = get_cache_dir(home);
    let mut name = String::from_str(app_id);
    push_str(&mut name, ".raw");
    path_join(dir.as_str(), name.as_str())
}

/// Position of `app` among `pins`.
pub fn position_of(pins: &Vec<String>, app: &str) -> (r: Option<usize>)
    ensures
        r matches Some(i) ==> i < pins@.len() && pins@[i as int]@ == app@,
        r is None ==> !str_views(pins@).contains(app@),
{
    let a = chars_of(app);
    let mut i: usize = 0;
    while i < pins.len()
        invariant
            i <= pins@.len(),
            a@ == app@,
            forall|k: int| 0 <= k < i ==> pins@[k]@ != app@,
        decreases pins@.len() - i,
    {
        let p = chars_of(pins[i].as_str());
        if chars_eq(&p, &a) {
            return Some(i);
        }
        i += 1;
    }
    assert forall|k: int| 0 <= k < str_views(pins@).len() implies str_views(pins@)[k] != app@ by {
        assert(str_views(pins@)[k] == pins@[k]@);
    }
    None
}

/// Pins `app` when it is not pinned and unpins it otherwise.  Returns whether it is
/// pinned now.
pub fn toggle_pin(pins: &mut Vec<String>, app: String) -> (pinned_now: bool)
    requires
        str_views(old(pins)@).no_duplicates(),
    ensures
        str_views(final(pins)@).no_duplicates(),
        pinned_now == !str_views(old(pins)@).contains(app@),
        str_views(final(pins)@).to_set() == (if pinned_now {
            str_views(old(pins)@).to_set().insert(app@)
        } else {
            str_views(old(pins)@).to_set().remove(app@)
        }),
{
    let ghost v0 = str_views(pins@);
    match position_of(pins, app.as_str()) {
        Some(i) => {
            pins.remove(i);
            proof {
                let v1 = str_views(pins@);
                assert(v1 =~= v0.remove(i as int));
                assert(v0[i as int] == app@);
                assert(v1.no_duplicates()) by {
                    assert forall|a: int, b: int| 0 <= a < v1.len() && 0 <= b < v1.len() && a != b implies v1[a] != v1[b] by {
                        let a2 = if a < i { a } else { a + 1 };
                        let b2 = if b < i { b } else { b + 1 };
                        assert(v1[a] == v0[a2]);
                        assert(v1[b] == v0[b2]);
                    }
                }
                assert forall|x: Seq<char>| #[trigger] v1.to_set().contains(x) <==> v0.to_set().remove(app@).contains(x) by {
                    if v1.to_set().contains(x) {
                        let a = choose|a: int| 0 <= a < v1.len() && v1[a] == x;
                        let a2 = if a < i { a } else { a + 1 };
                        assert(v1[a] == v0[a2]);
                        assert(v0.contains(x));
                    }
                    if v0.to_set().remove(app@).contains(x) {
                        let a = choose|a: int| 0 <= a < v0.len() && v0[a] == x;
                        assert(a != i);
                        let a2 = if a < i { a } else { a - 1 };
                        assert(v1[a2] == v0[a]);
                        assert(v1.contains(x));
                    }
                }
                assert(v1.to_set() =~= v0.to_set().remove(app@));
            }
            false
        },
        None => {
            pins.push(app);
            proof {
                let v1 = str_views(pins@);
                assert(v1 =~= v0.push(app@));
                assert forall|x: Seq<char>| #[trigger] v1.to_set().contains(x) <==> v0.to_set().insert(app@).contains(x) by {
                    if v1.to_set().contains(x) {
                        let a = choose|a: int| 0 <= a < v1.len() && v1[a] == x;
                        if a < v0.len() {
                            assert(v0[a] == x);
                            assert(v0.contains(x));
                        }
                    }
                    if v0.to_set().insert(app@).contains(x) {
                        if x == app@ {
                            assert(v1[v0.len() as int] == x);
                        } else {
                            let a = choose|a: int| 0 <= a < v0.len() && v0[a] == x;
                            assert(v1[a] == x);
                        }
                        assert(v1.contains(x));
                    }
                }
                assert(v1.to_set() =~= v0.to_set().insert(app@));
            }
            true
        },
    }
}

/// Toggling the same app twice leaves the set of pinned apps as it was.
pub proof fn law_toggle_pin_twice(pins: Set<Seq<char>>, app: Seq<char>)
    ensures
        (if pins.contains(app) { pins.remove(app) } else { pins.insert(app) }).contains(app) == !pins.contains(app),
        ({
            let once = if pins.contains(app) { pins.remove(app) } else { pins.insert(app) };
            let twice = if once.contains(app) { once.remove(app) } else { once.insert(app) };
            twice == pins
        }),
{
    let once = if pins.contains(app) { pins.remove(app) } else { pins.insert(app) };
    let twice = if once.contains(app) { once.remove(app) } else { once.insert(app) };
    assert(twice =~= pins);
}

// ---------------------------------------------------------------------------
// Cached icons: the width and height as native-endian u32, then the RGBA bytes.
// ---------------------------------------------------------------------------

/// Whether the machine that runs this code stores integers least significant byte first
/// (vstd's `endianness()` stands for that machine's byte order).
pub open spec fn spec_native_little() -> bool {
    vstd::endian::endianness() == vstd::endian::Endian::Little
}

/// Calls `u32::from_ne_bytes` on the bytes 1, 0, 0, 0, which reads them in the machine's
/// own byte order: 1 on a little-endian machine and 2^24 on a big-endian one.
#[verifier::external_body]
fn native_endian_probe() -> (r: u32)
    ensures
        r == (if spec_native_little() { 1u32 } else { 0x0100_0000u32 }),
{
    u32::from_ne_bytes([1, 0, 0, 0])
}

/// Whether the machine stores integers least significant byte first.
fn native_is_little_endian() -> (r: bool)
    ensures
        r == spec_native_little(),
{
    native_endian_probe() == 1
}

/// The four bytes of `x`, least significant first when `little`, else most significant first.
pub open spec fn spec_u32_bytes(x: u32, little: bool) -> Seq<u8> {
    let b0 = (x % 256) as u8;
    let b1 = ((x / 256) % 256) as u8;
    let b2 = ((x / 65536) % 256) as u8;
    let b3 = (x / 16777216) as u8;
    if little {
        seq![b0, b1, b2, b3]
    } else {
        seq![b3, b2, b1, b0]
    }
}

/// The `u32` that the four bytes at `at` encode in the given byte order.
pub open spec fn spec_u32_at(b: Seq<u8>, at: int, little: bool) -> int {
    if little {
        b[at] + 256 * b[at + 1] + 65536 * b[at + 2] + 16777216 * b[at + 3]
    } else {
        16777216 * b[at] + 65536 * b[at + 1] + 256 * b[at + 2] + b[at + 3]
    }
}

/// The file contents of a cached icon.
pub open spec fn spec_encode_cached_icon(width: u32, height: u32, rgba: Seq<u8>, little: bool) -> Seq<u8> {
    spec_u32_bytes(width, little) + spec_u32_bytes(height, little) + rgba
}

/// What loading a cached icon yields: the RGBA bytes and the width, provided the file
/// holds the two size fields.  (The height field is read but not returned.)
pub open spec fn spec_decode_cached_icon(b: Seq<u8>, little: bool) -> Option<(Seq<u8>, int)> {
    if b.len() < 8 {
        None
    } else {
        Some((b.skip(8), spec_u32_at(b, 0, little)))
    }
}

fn push_u32(out: &mut Vec<u8>, x: u32, little: bool)
    ensures
        final(out)@ == old(out)@ + spec_u32_bytes(x, little),
{
    let b0 = (x % 256) as u8;
    let b1 = ((x / 256) % 256) as u8;
    let b2 = ((x / 65536) % 256) as u8;
    let b3 = (x / 16777216) as u8;
    if little {
        out.push(b0);
        out.push(b1);
        out.push(b2);
        out.push(b3);
    } else {
        out.push(b3);
        out.push(b2);
        out.push(b1);
        out.push(b0);
    }
    assert(out@ =~= old(out)@ + spec_u32_bytes(x, little));
}

/// The bytes a cached icon is stored as, for the given byte order.
pub fn encode_cached_icon_in(width: u32, height: u32, rgba: &[u8], little: bool) -> (r: Vec<u8>)
    ensures
        r@ == spec_encode_cached_icon(width, height, rgba@, little),
{
    let mut out: Vec<u8> = Vec::new();
    push_u32(&mut out, width, little);
    push_u32(&mut out, height, little);
    let mut i: usize = 0;
    let ghost head = out@;
    while i < rgba.len()
        invariant
            i <= rgba@.len(),
            out@ == head + rgba@.take(i as int),
        decreases rgba@.len() - i,
    {
        out.push(rgba[i]);
        i += 1;
        assert(out@ =~= head + rgba@.take(i as int));
    }
    assert(rgba@.take(rgba@.len() as int) =~= rgba@);
    out
}

/// Reads a cached icon stored in the given byte order.
pub fn decode_cached_icon_in(b: &[u8], little: bool) -> (r: Option<(Vec<u8>, u32)>)
    ensures
        match r {
            Some(p) => spec_decode_cached_icon(b@, little) == Some((p.0@, p.1 as int)),
            None => spec_decode_cached_icon(b@, little) is None,
        },
{
    if b.len() < 8 {
        return None;
    }
    let w: u32 = if little {
        b[0] as u32 + 256 * (b[1] as u32) + 65536 * (b[2] as u32) + 16777216 * (b[3] as u32)
    } else {
        16777216 * (b[0] as u32) + 65536 * (b[1] as u32) + 256 * (b[2] as u32) + b[3] as u32
    };
    let mut rest: Vec<u8> = Vec::new();
    let mut i: usize = 8;
    while i < b.len()
        invariant
            8 <= i <= b@.len(),
            rest@ == b@.subrange(8, i as int),
        decreases b@.len() - i,
    {
        rest.push(b[i]);
        i += 1;
        assert(rest@ =~= b@.subrange(8, i as int));
    }
    assert(rest@ =~= b@.skip(8));
    Some((rest, w))
}

/// The bytes a cached icon is stored as on this machine.
pub fn save_cached_icon(width: u32, height: u32, rgba: &[u8]) -> (r: Vec<u8>)
    ensures
        r@ == spec_encode_cached_icon(width, height, rgba@, spec_native_little()),
{
    let little = native_is_little_endian();
    encode_cached_icon_in(width, height, rgba, little)
}

/// Reads a cached icon stored on this machine: the RGBA bytes and the width.
pub fn load_cached_icon(b: &[u8]) -> (r: Option<(Vec<u8>, u32)>)
    ensures
        match r {
            Some(p) => spec_decode_cached_icon(b@, spec_native_little()) == Some((p.0@, p.1 as int)),
            None => spec_decode_cached_icon(b@, spec_native_little()) is None,
        },
{
    let little = native_is_little_endian();
    decode_cached_icon_in(b, little)
}

/// Reading back a cached icon written in the same byte order gives the pixels and the width.
pub proof fn law_cached_icon_roundtrip(width: u32, height: u32, rgba: Seq<u8>, little: bool)
    ensures
        spec_decode_cached_icon(spec_encode_cached_icon(width, height, rgba, little), little) == Some((rgba, width as int)),
{
    let e = spec_encode_cached_icon(width, height, rgba, little);
    assert(e.skip(8) =~= rgba);
    let x = width as int;
    assert(x == (x % 256) + 256 * ((x / 256) % 256) + 65536 * ((x / 65536) % 256) + 16777216 * (x / 16777216)) by (nonlinear_arith)
        requires
            0 <= x < 0x1_0000_0000,
    ;
}

} // verus!

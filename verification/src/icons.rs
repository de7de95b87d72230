//! Finding icon files by name, and showing icons in a terminal.
use vstd::prelude::*;
use base64::Engine;
use crate::text::{
    chars_of, chars_eq, contains, eq_ignore_ascii_case, opt_view, push_decimal, spec_contains, spec_decimal,
    spec_eq_ignore_ascii_case, spec_to_lowercase, spec_trim, string_of, to_lowercase, trim,
};
use crate::layout::{str_views, views};
use crate::paths::{extension, file_stem, opt_chars_view, path_file_name, spec_extension, spec_file_stem, spec_path_file_name};
use crate::desktop::{first_index, lemma_first_index, lemma_first_index_none, spec_split, split_chars, to_string_opt};
use crate::persistence::push_str;

verus! {

/// The character of the RFC 4648 base64 alphabet for the six-bit value `v`.
pub open spec fn base64_digit(v: int) -> char {
    if v < 26 {
        (65 + v) as char
    } else if v < 52 {
        (97 + v - 26) as char
    } else if v < 62 {
        (48 + v - 52) as char
    } else if v == 62 {
        '+'
    } else {
        '/'
    }
}

/// `data` in base64 with the RFC 4648 alphabet and `=` padding: each group of three
/// bytes becomes four characters; a final group of one or two bytes becomes two or
/// three characters followed by `==` or `=`.
pub open spec fn spec_base64_standard(data: Seq<u8>) -> Seq<char>
    decreases data.len(),
{
    if data.len() == 0 {
        Seq::empty()
    } else if data.len() == 1 {
        let a = data[0] as int;
        seq![base64_digit(a / 4), base64_digit((a % 4) * 16), '=', '=']
    } else if data.len() == 2 {
        let a = data[0] as int;
        let b = data[1] as int;
        seq![base64_digit(a / 4), base64_digit((a % 4) * 16 + b / 16), base64_digit((b % 16) * 4), '=']
    } else {
        let a = data[0] as int;
        let b = data[1] as int;
        let c = data[2] as int;
        seq![base64_digit(a / 4), base64_digit((a % 4) * 16 + b / 16), base64_digit((b % 16) * 4 + c / 64), base64_digit(c % 64)]
            + spec_base64_standard(data.skip(3))
    }
}

/// Calls `base64::engine::general_purpose::STANDARD.encode`, which writes `data` with
/// the standard alphabet and padding.
#[verifier::external_body]
fn base64_encode(data: &[u8]) -> (r: String)
    ensures
        r@ == spec_base64_standard(data@),
{
    base64::engine::general_purpose::STANDARD.encode(data)
}

/// The path's file stem equals `target`, ignoring ASCII case.
pub open spec fn stem_matches(target: Seq<char>) -> spec_fn(Seq<char>) -> bool {
    |p: Seq<char>| match spec_file_stem(p) {
        Some(st) => spec_eq_ignore_ascii_case(st, target),
        None => false,
    }
}

fn stem_matches_exec(p: &str, target: &Vec<char>) -> (r: bool)
    ensures
        r == stem_matches(target@)(p@),
{
    match file_stem(p) {
        Some(st) => eq_ignore_ascii_case(&st, target),
        None => false,
    }
}

/// The path's file name is exactly `target`.
pub open spec fn name_matches(target: Seq<char>) -> spec_fn(Seq<char>) -> bool {
    |p: Seq<char>| spec_path_file_name(p) == Some(target)
}

fn name_matches_exec(p: &str, target: &Vec<char>) -> (r: bool)
    ensures
        r == name_matches(target@)(p@),
{
    match path_file_name(p) {
        Some(n) => chars_eq(&chars_of(n.as_str()), target),
        None => false,
    }
}

/// The first of the paths found under a directory (in the order the walk visits them)
/// that is a file named exactly `target_name`.
pub fn find_icon_path(entries: &Vec<String>, target_name: &str) -> (r: Option<String>)
    ensures
        opt_view(r) == (match first_index(str_views(entries@), name_matches(target_name@)) {
            Some(i) => Some(entries@[i]@),
            None => None,
        }),
{
    let target = chars_of(target_name);
    let mut i: usize = 0;
    while i < entries.len()
        invariant
            i <= entries@.len(),
            target@ == target_name@,
            forall|k: int| 0 <= k < i ==> !name_matches(target_name@)(#[trigger] str_views(entries@)[k]),
        decreases entries@.len() - i,
    {
        assert(str_views(entries@)[i as int] == entries@[i as int]@);
        if name_matches_exec(entries[i].as_str(), &target) {
            proof { lemma_first_index(str_views(entries@), name_matches(target_name@), i as int); }
            return Some(entries[i].clone());
        }
        i += 1;
    }
    proof { lemma_first_index_none(str_views(entries@), name_matches(target_name@)); }
    None
}

/// The path a line of the icon list names: the second `|`-separated field, trimmed.
pub open spec fn icon_list_path(line: Seq<char>) -> Option<Seq<char>> {
    let parts = spec_split(line, '|');
    if parts.len() >= 2 {
        Some(spec_trim(parts[1]))
    } else {
        None
    }
}

pub open spec fn icon_list_hit(icon_name: Seq<char>) -> spec_fn(Seq<char>) -> bool {
    |line: Seq<char>| match icon_list_path(line) {
        Some(p) => stem_matches(icon_name)(p),
        None => false,
    }
}

/// Looks `icon_name` up in the lines of the icon list (`None` when the list could not be
/// read): the path of the first line whose path has that stem, ignoring ASCII case.
pub fn search_in_icon_list(lines: Option<&Vec<String>>, icon_name: &str) -> (r: Option<String>)
    ensures
        opt_view(r) == (match lines {
            Some(ls) => match first_index(str_views(ls@), icon_list_hit(icon_name@)) {
                Some(i) => icon_list_path(ls@[i]@),
                None => None,
            },
            None => None,
        }),
{
    match lines {
        Some(ls) => search_icon_lines(ls, icon_name),
        None => None,
    }
}

fn search_icon_lines(ls: &Vec<String>, icon_name: &str) -> (r: Option<String>)
    ensures
        opt_view(r) == (match first_index(str_views(ls@), icon_list_hit(icon_name@)) {
            Some(i) => icon_list_path(ls@[i]@),
            None => None,
        }),
{
    let target = chars_of(icon_name);
    let mut i: usize = 0;
    while i < ls.len()
        invariant
            i <= ls@.len(),
            target@ == icon_name@,
            forall|k: int| 0 <= k < i ==> !icon_list_hit(icon_name@)(#[trigger] str_views(ls@)[k]),
        decreases ls@.len() - i,
    {
        let line = chars_of(ls[i].as_str());
        assert(line@ == str_views(ls@)[i as int]);
        let parts = split_chars(&line, '|');
        if parts.len() >= 2 {
            let p = string_of(trim(&parts[1]).as_slice());
            assert(views(parts@)[1] == parts@[1]@);
            assert(views(parts@).len() == parts@.len());
            assert(icon_list_path(ls@[i as int]@) == Some(p@));
            if stem_matches_exec(p.as_str(), &target) {
                proof { lemma_first_index(str_views(ls@), icon_list_hit(icon_name@), i as int); }
                return Some(p);
            }
        }
        i += 1;
    }
    proof { lemma_first_index_none(str_views(ls@), icon_list_hit(icon_name@)); }
    None
}

/// Finds the icon file for the icon name `name`: first the file `name.svg` among the
/// scalable hicolor icons, then the file `name.png` among the 64x64 ones, then in the
/// icon list.
pub fn get_icon_path(name: &str, scalable: &Vec<String>, sized: &Vec<String>, icon_list: Option<&Vec<String>>) -> (r: Option<String>)
    ensures
        opt_view(r) == (match first_index(str_views(scalable@), name_matches(name@ + ".svg"@)) {
            Some(i) => Some(scalable@[i]@),
            None => match first_index(str_views(sized@), name_matches(name@ + ".png"@)) {
                Some(i) => Some(sized@[i]@),
                None => match icon_list {
                    Some(ls) => match first_index(str_views(ls@), icon_list_hit(name@)) {
                        Some(i) => icon_list_path(ls@[i]@),
                        None => None,
                    },
                    None => None,
                },
            },
        }),
{
    let mut svg = String::from_str(name);
    push_str(&mut svg, ".svg");
    match find_icon_path(scalable, svg.as_str()) {
        Some(p) => return Some(p),
        None => {},
    }
    let mut png = String::from_str(name);
    push_str(&mut png, ".png");
    match find_icon_path(sized, png.as_str()) {
        Some(p) => return Some(p),
        None => {},
    }
    search_in_icon_list(icon_list, name)
}

/// A file that can serve as an app icon: a `.png` or `.svg` file whose lowercase name
/// contains the lowercase icon name or the lowercase app id.
pub open spec fn icon_file_matches(path: Seq<char>, icon_name: Seq<char>, app_id: Seq<char>) -> bool {
    (spec_extension(path) == Some("png"@) || spec_extension(path) == Some("svg"@)) && match spec_path_file_name(path) {
        Some(n) => spec_contains(spec_to_lowercase(n), spec_to_lowercase(icon_name))
            || spec_contains(spec_to_lowercase(n), spec_to_lowercase(app_id)),
        None => false,
    }
}

pub open spec fn icon_file_hit(icon_name: Seq<char>, app_id: Seq<char>) -> spec_fn(Seq<char>) -> bool {
    |p: Seq<char>| icon_file_matches(p, icon_name, app_id)
}

fn lower_chars(s: &str) -> (r: Vec<char>)
    ensures
        r@ == spec_to_lowercase(s@),
{
    chars_of(to_lowercase(s).as_str())
}

/// The first of the files found under the icon directories (regular files, in walk
/// order) that can serve as the icon of `app_id`, whose icon name is `icon_name`.
pub fn locate_icon_file(files: &Vec<String>, icon_name: &str, app_id: &str) -> (r: Option<String>)
    ensures
        opt_view(r) == (match first_index(str_views(files@), icon_file_hit(icon_name@, app_id@)) {
            Some(i) => Some(files@[i]@),
            None => None,
        }),
{
    let target = lower_chars(icon_name);
    let app = lower_chars(app_id);
    let png = chars_of("png");
    let svg = chars_of("svg");
    let mut i: usize = 0;
    while i < files.len()
        invariant
            i <= files@.len(),
            target@ == spec_to_lowercase(icon_name@),
            app@ == spec_to_lowercase(app_id@),
            png@ == "png"@,
            svg@ == "svg"@,
            forall|k: int| 0 <= k < i ==> !icon_file_hit(icon_name@, app_id@)(#[trigger] str_views(files@)[k]),
        decreases files@.len() - i,
    {
        assert(str_views(files@)[i as int] == files@[i as int]@);
        let ext_ok = match extension(files[i].as_str()) {
            Some(e) => chars_eq(&e, &png) || chars_eq(&e, &svg),
            None => false,
        };
        if ext_ok {
            match path_file_name(files[i].as_str()) {
                Some(n) => {
                    let nl = lower_chars(n.as_str());
                    if contains(&nl, &target) || contains(&nl, &app) {
                        proof { lemma_first_index(str_views(files@), icon_file_hit(icon_name@, app_id@), i as int); }
                        return Some(files[i].clone());
                    }
                },
                None => {},
            }
        }
        i += 1;
    }
    proof { lemma_first_index_none(str_views(files@), icon_file_hit(icon_name@, app_id@)); }
    None
}

/// A stand-in icon: a `.png` file whose lowercase name mentions a terminal or utilities.
pub open spec fn plausible_icon(path: Seq<char>) -> bool {
    spec_extension(path) == Some("png"@) && match spec_path_file_name(path) {
        Some(n) => spec_contains(spec_to_lowercase(n), "terminal"@) || spec_contains(spec_to_lowercase(n), "utilities"@),
        None => false,
    }
}

pub open spec fn plausible_hit() -> spec_fn(Seq<char>) -> bool {
    |p: Seq<char>| plausible_icon(p)
}

/// The first of the files found under the icon directories (regular files, in walk
/// order) that can stand in as a terminal icon.
pub fn find_plausible_icon(files: &Vec<String>) -> (r: Option<String>)
    ensures
        opt_view(r) == (match first_index(str_views(files@), plausible_hit()) {
            Some(i) => Some(files@[i]@),
            None => None,
        }),
{
    let png = chars_of("png");
    let terminal = chars_of("terminal");
    let utilities = chars_of("utilities");
    let mut i: usize = 0;
    while i < files.len()
        invariant
            i <= files@.len(),
            png@ == "png"@,
            terminal@ == "terminal"@,
            utilities@ == "utilities"@,
            forall|k: int| 0 <= k < i ==> !plausible_hit()(#[trigger] str_views(files@)[k]),
        decreases files@.len() - i,
    {
        assert(str_views(files@)[i as int] == files@[i as int]@);
        let ext_ok = match extension(files[i].as_str()) {
            Some(e) => chars_eq(&e, &png),
            None => false,
        };
        if ext_ok {
            match path_file_name(files[i].as_str()) {
                Some(n) => {
                    let nl = lower_chars(n.as_str());
                    if contains(&nl, &terminal) || contains(&nl, &utilities) {
                        proof { lemma_first_index(str_views(files@), plausible_hit(), i as int); }
                        return Some(files[i].clone());
                    }
                },
                None => {},
            }
        }
        i += 1;
    }
    proof { lemma_first_index_none(str_views(files@), plausible_hit()); }
    None
}

/// An image file is drawn as a vector image when its extension, lowercased, is `svg`;
/// a path without an extension is not drawn at all.
pub fn is_svg_path(path: &str) -> (r: Option<bool>)
    ensures
        r == (match spec_extension(path@) {
            Some(e) => Some(spec_to_lowercase(e) == "svg"@),
            None => None,
        }),
{
    match extension(path) {
        Some(e) => {
            let low = chars_of(to_lowercase(string_of(e.as_slice()).as_str()).as_str());
            Some(chars_eq(&low, &chars_of("svg")))
        },
        None => None,
    }
}

// ---------------------------------------------------------------------------
// Icons in the terminal
// ---------------------------------------------------------------------------

/// What became of an icon on its way to the terminal.
pub enum IconImage {
    /// No icon file was found.
    NotFound,
    /// The file could not be read or drawn.
    Unreadable,
    /// The icon, as rows of RGBA pixels.
    Rgba { width: u32, height: u32, pixels: Vec<u8> },
}

/// The kitty graphics protocol command that shows an RGBA image of `w` x `h` pixels
/// whose bytes are `b64` in base64.
pub open spec fn spec_kitty_image(w: u32, h: u32, b64: Seq<char>) -> Seq<char> {
    "\x1b_Ga=T,f=32,s="@ + spec_decimal(w as nat) + ",v="@ + spec_decimal(h as nat) + ";"@ + b64 + "\x1b\\"@
}

/// The terminal text for an icon: a kitty graphics command for an image, a short notice
/// otherwise.
pub fn generate_terminal_image_string(img: &IconImage) -> (r: String)
    ensures
        r@ == (match img {
            IconImage::NotFound => "\u{1F4C1} [No Icon Found]"@,
            IconImage::Unreadable => "\u{1F4C1} [Rasterize Error]"@,
            IconImage::Rgba { width, height, pixels } => spec_kitty_image(*width, *height, spec_base64_standard(pixels@)),
        }),
{
    match img {
        IconImage::NotFound => String::from_str("\u{1F4C1} [No Icon Found]"),
        IconImage::Unreadable => String::from_str("\u{1F4C1} [Rasterize Error]"),
        IconImage::Rgba { width, height, pixels } => {
            let b64 = base64_encode(pixels.as_slice());
            let mut s = String::new();
            push_str(&mut s, "\x1b_Ga=T,f=32,s=");
            push_decimal(&mut s, *width as u64);
            push_str(&mut s, ",v=");
            push_decimal(&mut s, *height as u64);
            push_str(&mut s, ";");
            push_str(&mut s, b64.as_str());
            push_str(&mut s, "\x1b\\");
            s
        },
    }
}


/// The RGB pixel at column `x`, row `y` of an image `w` pixels wide.
pub open spec fn pixel(px: Seq<u8>, w: int, x: int, y: int) -> (u8, u8, u8) {
    let i = 3 * (y * w + x);
    (px[i], px[i + 1], px[i + 2])
}

/// The pixel below `(x, y)`, or the pixel itself on the last row.
pub open spec fn pixel_below(px: Seq<u8>, w: int, h: int, x: int, y: int) -> (u8, u8, u8) {
    if y + 1 < h { pixel(px, w, x, y + 1) } else { pixel(px, w, x, y) }
}

/// One character cell showing two pixels: the upper half block in the colour of the top
/// pixel, on a background of the colour of the bottom pixel (24-bit ANSI colours).
pub open spec fn spec_color_cell(t: (u8, u8, u8), b: (u8, u8, u8)) -> Seq<char> {
    "\x1b[38;2;"@ + spec_decimal(t.0 as nat) + ";"@ + spec_decimal(t.1 as nat) + ";"@ + spec_decimal(t.2 as nat) + "m\x1b[48;2;"@
        + spec_decimal(b.0 as nat) + ";"@ + spec_decimal(b.1 as nat) + ";"@ + spec_decimal(b.2 as nat) + "m\u{2580}"@
}

/// The first `n` cells of the text row showing image rows `y` and `y + 1`.
pub open spec fn spec_cells(px: Seq<u8>, w: int, h: int, y: int, n: int) -> Seq<char>
    decreases n,
{
    if n <= 0 {
        Seq::empty()
    } else {
        spec_cells(px, w, h, y, n - 1) + spec_color_cell(pixel(px, w, n - 1, y), pixel_below(px, w, h, n - 1, y))
    }
}

/// The first `k` text rows of the image, each ended by a colour reset and a newline.
pub open spec fn spec_half_block_rows(px: Seq<u8>, w: int, h: int, k: int) -> Seq<char>
    decreases k,
{
    if k <= 0 {
        Seq::empty()
    } else {
        spec_half_block_rows(px, w, h, k - 1) + spec_cells(px, w, h, 2 * (k - 1), w) + "\x1b[0m\n"@
    }
}

/// An RGB image drawn with half blocks, two pixel rows per text row.
pub open spec fn spec_half_block_image(px: Seq<u8>, w: int, h: int) -> Seq<char> {
    spec_half_block_rows(px, w, h, (h + 1) / 2)
}

fn push_color_cell(s: &mut String, t: (u8, u8, u8), b: (u8, u8, u8))
    ensures
        final(s)@ == old(s)@ + spec_color_cell(t, b),
{
    push_str(s, "\x1b[38;2;");
    push_decimal(s, t.0 as u64);
    push_str(s, ";");
    push_decimal(s, t.1 as u64);
    push_str(s, ";");
    push_decimal(s, t.2 as u64);
    push_str(s, "m\x1b[48;2;");
    push_decimal(s, b.0 as u64);
    push_str(s, ";");
    push_decimal(s, b.1 as u64);
    push_str(s, ";");
    push_decimal(s, b.2 as u64);
    push_str(s, "m\u{2580}");
    assert(s@ =~= old(s)@ + spec_color_cell(t, b));
}

fn pixel_exec(px: &Vec<u8>, w: usize, h: usize, x: usize, y: usize) -> (r: (u8, u8, u8))
    requires
        x < w,
        y < h,
        px@.len() == 3 * w * h,
    ensures
        r == pixel(px@, w as int, x as int, y as int),
{
    let n = px.len();
    assert(y * w + x < w * h && 3 * (y * w + x) + 2 < n && y * w <= w * h && w * h <= n) by (nonlinear_arith)
        requires
            x < w,
            y < h,
            n == 3 * w * h,
    ;
    let i = 3 * (y * w + x);
    (px[i], px[i + 1], px[i + 2])
}

/// Draws an RGB image (`width` x `height`, three bytes per pixel, row by row) as
/// terminal text with half blocks, two pixel rows per line.
pub fn half_block_image_string(width: u32, height: u32, rgb: &Vec<u8>) -> (r: String)
    requires
        rgb@.len() == 3 * width * height,
    ensures
        r@ == spec_half_block_image(rgb@, width as int, height as int),
{
    let w = width as usize;
    let h = height as usize;
    let rows = h / 2 + h % 2;
    let mut s = String::new();
    let mut k: usize = 0;
    while k < rows
        invariant
            w == width as usize,
            h == height as usize,
            rows == (h + 1) / 2,
            k <= rows,
            rgb@.len() == 3 * w * h,
            s@ == spec_half_block_rows(rgb@, w as int, h as int, k as int),
        decreases rows - k,
    {
        let y = 2 * k;
        assert(y < h);
        let ghost head = s@;
        let mut x: usize = 0;
        while x < w
            invariant
                w == width as usize,
                h == height as usize,
                y < h,
                x <= w,
                rgb@.len() == 3 * w * h,
                s@ == head + spec_cells(rgb@, w as int, h as int, y as int, x as int),
            decreases w - x,
        {
            let top = pixel_exec(rgb, w, h, x, y);
            let bottom = if y + 1 < h { pixel_exec(rgb, w, h, x, y + 1) } else { top };
            push_color_cell(&mut s, top, bottom);
            assert(s@ =~= head + spec_cells(rgb@, w as int, h as int, y as int, x + 1));
            x += 1;
        }
        push_str(&mut s, "\x1b[0m\n");
        assert(s@ =~= spec_half_block_rows(rgb@, w as int, h as int, k + 1));
        k += 1;
    }
    s
}

// ---------------------------------------------------------------------------
// Matching windows to processes
// ---------------------------------------------------------------------------

/// A process name matches an app name when, lowercased, one contains the other
/// (`both_ways`), or when the process name contains the app name.
pub open spec fn process_matches(proc_name: Seq<char>, app_name: Seq<char>, both_ways: bool) -> bool {
    let p = spec_to_lowercase(proc_name);
    let a = spec_to_lowercase(app_name);
    spec_contains(p, a) || (both_ways && spec_contains(a, p))
}

/// A running process: its id and its name.
pub struct ProcessInfo {
    pub pid: u32,
    pub name: String,
}

pub open spec fn process_hit(app_name: Seq<char>, both_ways: bool) -> spec_fn(ProcessInfo) -> bool {
    |p: ProcessInfo| process_matches(p.name@, app_name, both_ways)
}

/// The id of the first process (in the order given) whose name matches the app name.
pub fn find_matching_pid(procs: &Vec<ProcessInfo>, app_name: &str, both_ways: bool) -> (r: Option<u32>)
    ensures
        r == (match first_index(procs@, process_hit(app_name@, both_ways)) {
            Some(i) => Some(procs@[i].pid),
            None => None,
        }),
{
    let a = lower_chars(app_name);
    let mut i: usize = 0;
    while i < procs.len()
        invariant
            i <= procs@.len(),
            a@ == spec_to_lowercase(app_name@),
            forall|k: int| 0 <= k < i ==> !process_hit(app_name@, both_ways)(#[trigger] procs@[k]),
        decreases procs@.len() - i,
    {
        let p = lower_chars(procs[i].name.as_str());
        if contains(&p, &a) || (both_ways && contains(&a, &p)) {
            proof { lemma_first_index(procs@, process_hit(app_name@, both_ways), i as int); }
            return Some(procs[i].pid);
        }
        i += 1;
    }
    proof { lemma_first_index_none(procs@, process_hit(app_name@, both_ways)); }
    None
}

/// A `.png` or `.svg` file whose lowercased name contains the lowercased app id can
/// serve as the app's icon whatever the icon name is: the search stops at it or at an
/// earlier match.  So the app `gimp` finds `gimp.svg` even when its icon is named
/// `org.gimp.GIMP`.
pub proof fn law_icon_file_found_by_app_id(paths: Seq<Seq<char>>, icon_name: Seq<char>, app_id: Seq<char>, i: int, n: Seq<char>)
    requires
        0 <= i < paths.len(),
        spec_extension(paths[i]) == Some("png"@) || spec_extension(paths[i]) == Some("svg"@),
        spec_path_file_name(paths[i]) == Some(n),
        spec_contains(spec_to_lowercase(n), spec_to_lowercase(app_id)),
    ensures
        first_index(paths, icon_file_hit(icon_name, app_id)) matches Some(j) && 0 <= j <= i,
{
    assert(icon_file_hit(icon_name, app_id)(paths[i]));
    crate::desktop::lemma_first_index_at_most(paths, icon_file_hit(icon_name, app_id), i);
}

} // verus!

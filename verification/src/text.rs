//! Character-level helpers shared by the parsers and matchers of the dock:
//! trimming, splitting, ASCII case folding and substring tests over `Seq<char>`.
use vstd::prelude::*;

verus! {

/// What `char::is_whitespace` answers for `c`: whether it has the Unicode `White_Space`
/// property, which these code points have: U+0009 to U+000D, U+0020, U+0085, U+00A0,
/// U+1680, U+2000 to U+200A, U+2028, U+2029, U+202F, U+205F and U+3000.
pub open spec fn spec_is_whitespace(c: char) -> bool {
    let v = c as int;
    ||| 0x09 <= v <= 0x0D
    ||| v == 0x20
    ||| v == 0x85
    ||| v == 0xA0
    ||| v == 0x1680
    ||| 0x2000 <= v <= 0x200A
    ||| v == 0x2028
    ||| v == 0x2029
    ||| v == 0x202F
    ||| v == 0x205F
    ||| v == 0x3000
}

/// What `char::is_numeric` answers for `c` (Unicode general categories `Nd`, `Nl`, `No`).
pub uninterp spec fn spec_is_numeric(c: char) -> bool;

/// What `str::to_lowercase` returns for the characters `s` (full Unicode lowercase mapping).
pub uninterp spec fn spec_to_lowercase(s: Seq<char>) -> Seq<char>;

/// Whether `c` has the Unicode `White_Space` property, as `char::is_whitespace` answers.
pub(crate) fn is_whitespace(c: char) -> (r: bool)
    ensures
        r == spec_is_whitespace(c),
{
    let v = c as u32;
    (0x09 <= v && v <= 0x0D) || v == 0x20 || v == 0x85 || v == 0xA0 || v == 0x1680 || (0x2000 <= v && v <= 0x200A)
        || v == 0x2028 || v == 0x2029 || v == 0x202F || v == 0x205F || v == 0x3000
}

/// Calls `char::is_numeric`; the result is taken to be `spec_is_numeric(c)`.
#[verifier::external_body]
pub(crate) fn is_numeric(c: char) -> (r: bool)
    ensures
        r == spec_is_numeric(c),
{
    c.is_numeric()
}

/// Calls `str::to_lowercase`; the result is taken to be `spec_to_lowercase(s@)`.
#[verifier::external_body]
pub(crate) fn to_lowercase(s: &str) -> (r: String)
    ensures
        r@ == spec_to_lowercase(s@),
{
    s.to_lowercase()
}

/// Calls `String::push`, which appends `c` at the end of `s`.
#[verifier::external_body]
pub(crate) fn push_char(s: &mut String, c: char)
    ensures
        final(s)@ == old(s)@.push(c),
{
    s.push(c);
}

/// Characters of an optional string.
pub open spec fn opt_view(o: Option<String>) -> Option<Seq<char>> {
    match o {
        Some(s) => Some(s@),
        None => None,
    }
}

/// Characters of a string slice, in order.
pub fn chars_of(s: &str) -> (r: Vec<char>)
    ensures
        r@ == s@,
{
    let mut v: Vec<char> = Vec::new();
    for c in it: s.chars()
        invariant
            v@ == it.seq().take(it.index()),
    {
        v.push(c);
    }
    v
}

/// A `String` holding the characters `v`.
pub fn string_of(v: &[char]) -> (r: String)
    ensures
        r@ == v@,
{
    let mut s = String::new();
    let mut i: usize = 0;
    while i < v.len()
        invariant
            i <= v@.len(),
            s@ == v@.take(i as int),
        decreases v@.len() - i,
    {
        push_char(&mut s, v[i]);
        i += 1;
        assert(s@ =~= v@.take(i as int));
    }
    assert(v@.take(v@.len() as int) =~= v@);
    s
}

/// The characters of `v[from..to]` as a `String`.
pub fn string_of_range(v: &Vec<char>, from: usize, to: usize) -> (r: String)
    requires
        from <= to <= v@.len(),
    ensures
        r@ == v@.subrange(from as int, to as int),
{
    let mut s = String::new();
    let mut i: usize = from;
    while i < to
        invariant
            from <= i <= to <= v@.len(),
            s@ == v@.subrange(from as int, i as int),
        decreases to - i,
    {
        push_char(&mut s, v[i]);
        i += 1;
        assert(s@ =~= v@.subrange(from as int, i as int));
    }
    s
}

// ---------------------------------------------------------------------------
// Spans: the length of the longest prefix (or suffix) whose characters all
// satisfy a predicate.  Trimming and splitting are stated through them.
// ---------------------------------------------------------------------------

/// Number of leading characters of `s` that satisfy `f`.
pub open spec fn span_len(s: Seq<char>, f: spec_fn(char) -> bool) -> nat
    decreases s.len(),
{
    if s.len() > 0 && f(s[0]) {
        1 + span_len(s.drop_first(), f)
    } else {
        0
    }
}

/// Number of trailing characters of `s` that satisfy `f`.
pub open spec fn rspan_len(s: Seq<char>, f: spec_fn(char) -> bool) -> nat
    decreases s.len(),
{
    if s.len() > 0 && f(s.last()) {
        1 + rspan_len(s.drop_last(), f)
    } else {
        0
    }
}

pub proof fn lemma_span_len(s: Seq<char>, f: spec_fn(char) -> bool, k: int)
    requires
        0 <= k <= s.len(),
        forall|j: int| 0 <= j < k ==> f(#[trigger] s[j]),
        k == s.len() || !f(s[k]),
    ensures
        span_len(s, f) == k,
    decreases k,
{
    if k > 0 {
        assert(f(s[0]));
        let t = s.drop_first();
        assert forall|j: int| 0 <= j < k - 1 implies f(#[trigger] t[j]) by {
            assert(t[j] == s[j + 1]);
        }
        if k - 1 < t.len() {
            assert(t[k - 1] == s[k]);
        }
        lemma_span_len(t, f, k - 1);
    }
}

pub proof fn lemma_rspan_len(s: Seq<char>, f: spec_fn(char) -> bool, k: int)
    requires
        0 <= k <= s.len(),
        forall|j: int| s.len() - k <= j < s.len() ==> f(#[trigger] s[j]),
        k == s.len() || !f(s[s.len() - k - 1]),
    ensures
        rspan_len(s, f) == k,
    decreases k,
{
    if k > 0 {
        assert(f(s[s.len() - 1]));
        let t = s.drop_last();
        assert forall|j: int| t.len() - (k - 1) <= j < t.len() implies f(#[trigger] t[j]) by {
            assert(t[j] == s[j]);
        }
        if k - 1 < t.len() {
            assert(t[t.len() - (k - 1) - 1] == s[s.len() - k - 1]);
        }
        lemma_rspan_len(t, f, k - 1);
    }
}

pub proof fn lemma_span_len_bound(s: Seq<char>, f: spec_fn(char) -> bool)
    ensures
        span_len(s, f) <= s.len(),
        forall|j: int| 0 <= j < span_len(s, f) ==> f(#[trigger] s[j]),
        span_len(s, f) < s.len() ==> !f(s[span_len(s, f) as int]),
    decreases s.len(),
{
    if s.len() > 0 && f(s[0]) {
        let t = s.drop_first();
        lemma_span_len_bound(t, f);
        assert forall|j: int| 0 <= j < span_len(s, f) implies f(#[trigger] s[j]) by {
            if j > 0 {
                assert(s[j] == t[j - 1]);
            }
        }
        if span_len(s, f) < s.len() {
            assert(s[span_len(s, f) as int] == t[span_len(t, f) as int]);
        }
    }
}

pub open spec fn is_ws() -> spec_fn(char) -> bool {
    |c: char| spec_is_whitespace(c)
}

pub open spec fn not_ws() -> spec_fn(char) -> bool {
    |c: char| !spec_is_whitespace(c)
}

pub open spec fn not_char(x: char) -> spec_fn(char) -> bool {
    |c: char| c != x
}

/// `str::trim_start`: `s` without its leading whitespace.
pub open spec fn spec_trim_start(s: Seq<char>) -> Seq<char> {
    s.skip(span_len(s, is_ws()) as int)
}

/// `str::trim_end`: `s` without its trailing whitespace.
pub open spec fn spec_trim_end(s: Seq<char>) -> Seq<char> {
    s.take(s.len() - rspan_len(s, is_ws()))
}

/// `str::trim`: `s` without leading and trailing whitespace.
pub open spec fn spec_trim(s: Seq<char>) -> Seq<char> {
    spec_trim_end(spec_trim_start(s))
}

/// Index of the first character of `v[from..]` that is not whitespace (or `v.len()`).
fn skip_ws(v: &Vec<char>, from: usize) -> (k: usize)
    requires
        from <= v@.len(),
    ensures
        from <= k <= v@.len(),
        k - from == span_len(v@.skip(from as int), is_ws()),
{
    let mut k = from;
    while k < v.len() && is_whitespace(v[k])
        invariant
            from <= k <= v@.len(),
            forall|j: int| from <= j < k ==> spec_is_whitespace(#[trigger] v@[j]),
        decreases v@.len() - k,
    {
        k += 1;
    }
    proof {
        let t = v@.skip(from as int);
        assert forall|j: int| 0 <= j < k - from implies #[trigger] is_ws()(t[j]) by {
            assert(t[j] == v@[from + j]);
        }
        if k < v@.len() {
            assert(t[k - from] == v@[k as int]);
        }
        lemma_span_len(t, is_ws(), k - from);
    }
    k
}

/// Index of the first character of `v[from..]` that is not whitespace (or `v.len()`).
pub fn skip_ws_pub(v: &Vec<char>, from: usize) -> (k: usize)
    requires
        from <= v@.len(),
    ensures
        from <= k <= v@.len(),
        k - from == span_len(v@.skip(from as int), is_ws()),
{
    skip_ws(v, from)
}

/// `v` with leading and trailing whitespace removed (`str::trim`).
pub fn trim(v: &Vec<char>) -> (r: Vec<char>)
    ensures
        r@ == spec_trim(v@),
{
    let start = skip_ws(v, 0);
    assert(v@.skip(0) =~= v@);
    let mut end = v.len();
    while end > start && is_whitespace(v[end - 1])
        invariant
            start <= end <= v@.len(),
            forall|j: int| end <= j < v@.len() ==> spec_is_whitespace(#[trigger] v@[j]),
        decreases end,
    {
        end -= 1;
    }
    let mut r: Vec<char> = Vec::new();
    let mut i = start;
    while i < end
        invariant
            start <= i <= end <= v@.len(),
            r@ == v@.subrange(start as int, i as int),
        decreases end - i,
    {
        r.push(v[i]);
        i += 1;
        assert(r@ =~= v@.subrange(start as int, i as int));
    }
    proof {
        let t = v@.skip(start as int);
        assert(spec_trim_start(v@) == t);
        let k = v@.len() - end;
        assert forall|j: int| t.len() - k <= j < t.len() implies #[trigger] is_ws()(t[j]) by {
            assert(t[j] == v@[start + j]);
        }
        if k < t.len() {
            assert(t[t.len() - k - 1] == v@[end - 1]);
        }
        lemma_rspan_len(t, is_ws(), k);
        assert(r@ =~= spec_trim(v@));
    }
    r
}

/// `s` starts with `p`.
pub open spec fn spec_starts_with(s: Seq<char>, p: Seq<char>) -> bool {
    p.len() <= s.len() && s.take(p.len() as int) =~= p
}

/// `p` occurs in `s` starting at index `i`.
pub open spec fn occurs_at(s: Seq<char>, p: Seq<char>, i: int) -> bool {
    0 <= i && i + p.len() <= s.len() && s.subrange(i, i + p.len()) =~= p
}

/// `str::contains` with a string pattern: `p` occurs somewhere in `s`.
pub open spec fn spec_contains(s: Seq<char>, p: Seq<char>) -> bool {
    exists|i: int| #[trigger] occurs_at(s, p, i)
}

fn matches_at(s: &Vec<char>, p: &Vec<char>, i: usize) -> (r: bool)
    requires
        i + p@.len() <= s@.len(),
    ensures
        r == occurs_at(s@, p@, i as int),
{
    let n = s.len();
    let mut j: usize = 0;
    while j < p.len()
        invariant
            n == s@.len(),
            j <= p@.len(),
            i + p@.len() <= s@.len(),
            forall|k: int| 0 <= k < j ==> s@[i + k] == p@[k],
        decreases p@.len() - j,
    {
        assert(i + j < s@.len());
        if s[i + j] != p[j] {
            assert(s@.subrange(i as int, i + p@.len())[j as int] != p@[j as int]);
            return false;
        }
        j += 1;
    }
    assert(s@.subrange(i as int, i + p@.len()) =~= p@);
    true
}

/// Whether `p` occurs in `s`.
pub fn contains(s: &Vec<char>, p: &Vec<char>) -> (r: bool)
    ensures
        r == spec_contains(s@, p@),
{
    if p.len() > s.len() {
        assert forall|i: int| !occurs_at(s@, p@, i) by {}
        return false;
    }
    let last = s.len() - p.len();
    let mut i: usize = 0;
    loop
        invariant_except_break
            last == s@.len() - p@.len(),
            i <= last,
            forall|k: int| 0 <= k < i ==> !occurs_at(s@, p@, k),
        ensures
            forall|k: int| 0 <= k <= last ==> !occurs_at(s@, p@, k),
        decreases last - i,
    {
        if matches_at(s, p, i) {
            return true;
        }
        if i == last {
            break;
        }
        i += 1;
    }
    assert forall|k: int| !occurs_at(s@, p@, k) by {
        if 0 <= k <= last {
        }
    }
    false
}

/// Whether `s` starts with `p`.
pub fn starts_with(s: &Vec<char>, p: &Vec<char>) -> (r: bool)
    ensures
        r == spec_starts_with(s@, p@),
{
    if p.len() > s.len() {
        return false;
    }
    let r = matches_at(s, p, 0);
    assert(s@.subrange(0, p@.len() as int) =~= s@.take(p@.len() as int));
    r
}

/// ASCII lowercase of the code point `c` (`char::to_ascii_lowercase`).
pub open spec fn ascii_lower(c: char) -> int {
    if 65 <= (c as u32) <= 90 {
        (c as u32) + 32
    } else {
        c as u32 as int
    }
}

/// `str::eq_ignore_ascii_case`: equal once ASCII letters are folded to lowercase.
pub open spec fn spec_eq_ignore_ascii_case(a: Seq<char>, b: Seq<char>) -> bool {
    a.len() == b.len() && forall|i: int| 0 <= i < a.len() ==> ascii_lower(#[trigger] a[i]) == ascii_lower(b[i])
}

fn ascii_lower_exec(c: char) -> (r: u32)
    ensures
        r == ascii_lower(c),
{
    let x = c as u32;
    if 65 <= x && x <= 90 {
        x + 32
    } else {
        x
    }
}

/// Whether `a` and `b` match, ignoring ASCII case.
pub fn eq_ignore_ascii_case(a: &Vec<char>, b: &Vec<char>) -> (r: bool)
    ensures
        r == spec_eq_ignore_ascii_case(a@, b@),
{
    if a.len() != b.len() {
        return false;
    }
    let mut i: usize = 0;
    while i < a.len()
        invariant
            a@.len() == b@.len(),
            i <= a@.len(),
            forall|k: int| 0 <= k < i ==> ascii_lower(#[trigger] a@[k]) == ascii_lower(b@[k]),
        decreases a@.len() - i,
    {
        if ascii_lower_exec(a[i]) != ascii_lower_exec(b[i]) {
            return false;
        }
        i += 1;
    }
    true
}

/// Whether two character sequences are equal.
pub fn chars_eq(a: &Vec<char>, b: &Vec<char>) -> (r: bool)
    ensures
        r == (a@ == b@),
{
    if a.len() != b.len() {
        return false;
    }
    let mut i: usize = 0;
    while i < a.len()
        invariant
            a@.len() == b@.len(),
            i <= a@.len(),
            forall|k: int| 0 <= k < i ==> a@[k] == b@[k],
        decreases a@.len() - i,
    {
        if a[i] != b[i] {
            return false;
        }
        i += 1;
    }
    assert(a@ =~= b@);
    true
}

/// Whether two strings hold the same characters.
pub fn str_eq(a: &str, b: &str) -> (r: bool)
    ensures
        r == (a@ == b@),
{
    let va = chars_of(a);
    let vb = chars_of(b);
    chars_eq(&va, &vb)
}

/// First whitespace-separated word of `s` (`s.split_whitespace().next()`).
pub open spec fn spec_first_word(s: Seq<char>) -> Option<Seq<char>> {
    let t = spec_trim_start(s);
    if t.len() == 0 {
        None
    } else {
        Some(t.take(span_len(t, not_ws()) as int))
    }
}

/// First whitespace-separated word of `v`, if any.
pub fn first_word(v: &Vec<char>) -> (r: Option<Vec<char>>)
    ensures
        r matches Some(w) ==> spec_first_word(v@) == Some(w@),
        r is None ==> spec_first_word(v@) is None,
{
    let start = skip_ws(v, 0);
    assert(v@.skip(0) =~= v@);
    if start == v.len() {
        return None;
    }
    let mut end = start;
    while end < v.len() && !is_whitespace(v[end])
        invariant
            start <= end <= v@.len(),
            forall|j: int| start <= j < end ==> !spec_is_whitespace(#[trigger] v@[j]),
        decreases v@.len() - end,
    {
        end += 1;
    }
    let mut w: Vec<char> = Vec::new();
    let mut i = start;
    while i < end
        invariant
            start <= i <= end <= v@.len(),
            w@ == v@.subrange(start as int, i as int),
        decreases end - i,
    {
        w.push(v[i]);
        i += 1;
        assert(w@ =~= v@.subrange(start as int, i as int));
    }
    proof {
        let t = v@.skip(start as int);
        assert(spec_trim_start(v@) == t);
        assert forall|j: int| 0 <= j < end - start implies #[trigger] not_ws()(t[j]) by {
            assert(t[j] == v@[start + j]);
        }
        if end < v@.len() {
            assert(t[end - start] == v@[end as int]);
        }
        lemma_span_len(t, not_ws(), end - start);
        assert(w@ =~= t.take(end - start));
    }
    Some(w)
}

/// Index of the first occurrence of `x` in `v`, or `v.len()` when there is none.
pub fn find_char(v: &Vec<char>, x: char) -> (k: usize)
    ensures
        k == span_len(v@, not_char(x)),
        k <= v@.len(),
        forall|j: int| 0 <= j < k ==> v@[j] != x,
        k < v@.len() ==> v@[k as int] == x,
{
    let mut k: usize = 0;
    while k < v.len() && v[k] != x
        invariant
            k <= v@.len(),
            forall|j: int| 0 <= j < k ==> v@[j] != x,
        decreases v@.len() - k,
    {
        k += 1;
    }
    proof {
        assert forall|j: int| 0 <= j < k implies #[trigger] not_char(x)(v@[j]) by {}
        lemma_span_len(v@, not_char(x), k as int);
    }
    k
}

/// Number of characters after the last occurrence of `x` in `v` (all of `v` when there is none).
pub fn rfind_char_tail(v: &Vec<char>, x: char) -> (t: usize)
    ensures
        t == rspan_len(v@, not_char(x)),
        t <= v@.len(),
        forall|j: int| v@.len() - t <= j < v@.len() ==> v@[j] != x,
        t < v@.len() ==> v@[v@.len() - t - 1] == x,
{
    let mut t: usize = 0;
    while t < v.len() && v[v.len() - t - 1] != x
        invariant
            t <= v@.len(),
            forall|j: int| v@.len() - t <= j < v@.len() ==> v@[j] != x,
        decreases v@.len() - t,
    {
        t += 1;
    }
    proof {
        assert forall|j: int| v@.len() - t <= j < v@.len() implies #[trigger] not_char(x)(v@[j]) by {}
        lemma_rspan_len(v@, not_char(x), t as int);
    }
    t
}

/// Digit character for `d < 10`.
pub open spec fn digit_char(d: nat) -> char {
    if d == 0 { '0' } else if d == 1 { '1' } else if d == 2 { '2' } else if d == 3 { '3' }
    else if d == 4 { '4' } else if d == 5 { '5' } else if d == 6 { '6' } else if d == 7 { '7' }
    else if d == 8 { '8' } else { '9' }
}

/// Decimal notation of `n`, as `format!("{}", n)` writes an unsigned integer.
pub open spec fn spec_decimal(n: nat) -> Seq<char>
    decreases n,
{
    if n < 10 {
        seq![digit_char(n)]
    } else {
        spec_decimal(n / 10).push(digit_char(n % 10))
    }
}

fn digit_exec(d: u64) -> (c: char)
    requires
        d < 10,
    ensures
        c == digit_char(d as nat),
{
    if d == 0 { '0' } else if d == 1 { '1' } else if d == 2 { '2' } else if d == 3 { '3' }
    else if d == 4 { '4' } else if d == 5 { '5' } else if d == 6 { '6' } else if d == 7 { '7' }
    else if d == 8 { '8' } else { '9' }
}

/// Appends the decimal notation of `n` to `s`.
pub fn push_decimal(s: &mut String, n: u64)
    ensures
        final(s)@ == old(s)@ + spec_decimal(n as nat),
    decreases n,
{
    if n < 10 {
        push_char(s, digit_exec(n));
        assert(s@ =~= old(s)@ + spec_decimal(n as nat));
    } else {
        push_decimal(s, n / 10);
        push_char(s, digit_exec(n % 10));
        assert(s@ =~= old(s)@ + spec_decimal(n as nat));
    }
}

} // verus!

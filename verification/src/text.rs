//! Text as sequences of characters: searching, splitting, trimming and
//! rendering numbers, each stated over `Seq<char>`.

use vstd::prelude::*;
use vstd::slice::slice_subrange;

verus! {

/// `String::push` appends one character.
pub assume_specification[ String::push ](s: &mut String, c: char)
    ensures
        final(s)@ == old(s)@.push(c),
;

/// `str::eq` compares two string slices character by character.
pub assume_specification[ <str as PartialEq>::eq ](a: &str, b: &str) -> (r: bool)
    ensures
        r == (a@ == b@),
;

/// The Unicode lowercase form of a text that is not all ASCII.
pub uninterp spec fn unicode_lowercase(s: Seq<char>) -> Seq<char>;

/// `c` with an ASCII capital letter turned into the small one.
pub open spec fn ascii_lowered(c: char) -> char {
    if ascii_upper(c) {
        (c as u32 + 32) as char
    } else {
        c
    }
}

/// All characters of `s` are ASCII.
pub open spec fn ascii(s: Seq<char>) -> bool {
    forall|i: int| 0 <= i < s.len() ==> (#[trigger] s[i] as u32) < 128
}

/// The lowercase form of a text.
pub open spec fn lowercase(s: Seq<char>) -> Seq<char> {
    if ascii(s) {
        s.map_values(|c: char| ascii_lowered(c))
    } else {
        unicode_lowercase(s)
    }
}

/// `str::to_lowercase`. Of an ASCII text each capital letter becomes the
/// small one and the other characters stay. Of another text the result
/// depends on the text alone, and is named [`unicode_lowercase`].
#[verifier::external_body]
pub(crate) fn to_lowercase(s: &str) -> (r: String)
    ensures
        ascii(s@) ==> r@ == s@.map_values(|c: char| ascii_lowered(c)),
        !ascii(s@) ==> r@ == unicode_lowercase(s@),
{
    s.to_lowercase()
}

/// `String::from_utf8`: succeeds exactly on valid UTF-8 and then holds the
/// decoded characters.
#[verifier::external_body]
pub(crate) fn from_utf8(bytes: Vec<u8>) -> (r: Option<String>)
    ensures
        r is Some <==> vstd::utf8::valid_utf8(bytes@),
        r matches Some(s) ==> s@ == vstd::utf8::decode_utf8(bytes@),
{
    String::from_utf8(bytes).ok()
}

/// The views of a sequence of strings.
pub open spec fn views(v: Seq<String>) -> Seq<Seq<char>> {
    v.map_values(|s: String| s@)
}

/// The view of an optional string.
pub open spec fn opt_view(o: Option<String>) -> Option<Seq<char>> {
    match o {
        Some(s) => Some(s@),
        None => None,
    }
}

/// The view of an optional string slice.
pub open spec fn opt_str_view(o: Option<&str>) -> Option<Seq<char>> {
    match o {
        Some(s) => Some(s@),
        None => None,
    }
}

pub broadcast proof fn lemma_views_push(v: Seq<String>, s: String)
    ensures
        #[trigger] views(v.push(s)) == views(v).push(s@),
{
    assert(views(v.push(s)) =~= views(v).push(s@));
}

/// Whether two texts are the same.
pub fn same(a: &str, b: &str) -> (r: bool)
    ensures
        r == (a@ == b@),
{
    *a == *b
}

/// Whether two optional texts are the same.
pub fn same_opt(a: &Option<String>, b: &Option<String>) -> (r: bool)
    ensures
        r == (opt_view(*a) == opt_view(*b)),
{
    match (a, b) {
        (Some(x), Some(y)) => same(x.as_str(), y.as_str()),
        (None, None) => true,
        _ => false,
    }
}

/// A copy of an optional text.
pub fn clone_opt(o: &Option<String>) -> (r: Option<String>)
    ensures
        opt_view(r) == opt_view(*o),
        r == *o,
{
    match o {
        Some(s) => Some(s.clone()),
        None => None,
    }
}

/// A copy of a list of texts.
pub fn clone_texts(v: &Vec<String>) -> (r: Vec<String>)
    ensures
        r@ == v@,
        views(r@) == views(v@),
{
    let mut out: Vec<String> = Vec::new();
    for i in 0..v.len()
        invariant
            out@ == v@.take(i as int),
    {
        out.push(v[i].clone());
    }
    assert(v@.take(v@.len() as int) == v@);
    out
}

/// The characters of `s`.
pub fn chars_of(s: &str) -> (r: Vec<char>)
    ensures
        r@ == s@,
{
    let mut out: Vec<char> = Vec::new();
    for c in it: s.chars()
        invariant
            out@ == it.seq().take(it.index()),
            it.seq() == s@,
    {
        out.push(c);
    }
    out
}

/// The text made of `cs`.
pub fn text_of(cs: &[char]) -> (r: String)
    ensures
        r@ == cs@,
{
    let mut out = String::new();
    for i in 0..cs.len()
        invariant
            out@ == cs@.take(i as int),
    {
        out.push(cs[i]);
    }
    out
}

/// The text made of the characters of `cs` from `a` up to `b`.
pub fn text_between(cs: &[char], a: usize, b: usize) -> (r: String)
    requires
        a <= b <= cs@.len(),
    ensures
        r@ == cs@.subrange(a as int, b as int),
{
    text_of(slice_subrange(cs, a, b))
}

// ---------------------------------------------------------------------
// Character classes
// ---------------------------------------------------------------------

/// The characters with the Unicode `White_Space` property.
pub open spec fn white_space(c: char) -> bool {
    ||| '\u{9}' <= c <= '\u{d}'
    ||| c == ' '
    ||| c == '\u{85}'
    ||| c == '\u{a0}'
    ||| c == '\u{1680}'
    ||| '\u{2000}' <= c <= '\u{200a}'
    ||| c == '\u{2028}'
    ||| c == '\u{2029}'
    ||| c == '\u{202f}'
    ||| c == '\u{205f}'
    ||| c == '\u{3000}'
}

pub fn is_white_space(c: char) -> (r: bool)
    ensures
        r == white_space(c),
{
    ('\u{9}' <= c && c <= '\u{d}') || c == ' ' || c == '\u{85}' || c == '\u{a0}' || c == '\u{1680}'
        || ('\u{2000}' <= c && c <= '\u{200a}') || c == '\u{2028}' || c == '\u{2029}' || c
        == '\u{202f}' || c == '\u{205f}' || c == '\u{3000}'
}

pub open spec fn ascii_digit(c: char) -> bool {
    '0' <= c <= '9'
}

pub open spec fn ascii_lower(c: char) -> bool {
    'a' <= c <= 'z'
}

pub open spec fn ascii_upper(c: char) -> bool {
    'A' <= c <= 'Z'
}

// ---------------------------------------------------------------------
// Searching
// ---------------------------------------------------------------------

/// `pat` stands in `s` at position `i`.
pub open spec fn occurs_at(s: Seq<char>, pat: Seq<char>, i: int) -> bool {
    0 <= i && i + pat.len() <= s.len() && s.subrange(i, i + pat.len()) == pat
}

/// `pat` stands somewhere in `s`.
pub open spec fn contains(s: Seq<char>, pat: Seq<char>) -> bool {
    exists|i: int| occurs_at(s, pat, i)
}

pub open spec fn starts_with(s: Seq<char>, pat: Seq<char>) -> bool {
    occurs_at(s, pat, 0)
}

pub open spec fn ends_with(s: Seq<char>, pat: Seq<char>) -> bool {
    occurs_at(s, pat, s.len() - pat.len())
}

/// The first position at or after `from` where `pat` stands, if any.
pub open spec fn find_from(s: Seq<char>, pat: Seq<char>, from: int) -> Option<int>
    decreases s.len() + 1 - from,
{
    if from < 0 || from + pat.len() > s.len() {
        None
    } else if occurs_at(s, pat, from) {
        Some(from)
    } else {
        find_from(s, pat, from + 1)
    }
}

/// The first position at or after `from` that holds one of `stops`; the
/// length of `s` if there is none.
pub open spec fn stop_from(s: Seq<char>, stops: Seq<char>, from: int) -> int
    decreases s.len() - from,
{
    if from < 0 || from >= s.len() {
        s.len() as int
    } else if stops.contains(s[from]) {
        from
    } else {
        stop_from(s, stops, from + 1)
    }
}

/// The first position at or after `from` that holds no white space; the
/// length of `s` if there is none.
pub open spec fn skip_space(s: Seq<char>, from: int) -> int
    decreases s.len() - from,
{
    if from < 0 || from >= s.len() {
        s.len() as int
    } else if white_space(s[from]) {
        skip_space(s, from + 1)
    } else {
        from
    }
}

/// The first position at or after `from` that holds white space; the length
/// of `s` if there is none.
pub open spec fn space_from(s: Seq<char>, from: int) -> int
    decreases s.len() - from,
{
    if from < 0 || from >= s.len() {
        s.len() as int
    } else if white_space(s[from]) {
        from
    } else {
        space_from(s, from + 1)
    }
}

/// Where the white space that ends `s.take(to)` begins.
pub open spec fn skip_space_back(s: Seq<char>, to: int) -> int
    decreases to,
{
    if to <= 0 {
        0
    } else if white_space(s[to - 1]) {
        skip_space_back(s, to - 1)
    } else {
        to
    }
}

pub proof fn lemma_bounds(s: Seq<char>, stops: Seq<char>, from: int)
    requires
        0 <= from <= s.len(),
    ensures
        from <= stop_from(s, stops, from) <= s.len(),
        from <= skip_space(s, from) <= s.len(),
        from <= space_from(s, from) <= s.len(),
        0 <= skip_space_back(s, from) <= from,
    decreases s.len() - from,
{
    lemma_back_bound(s, from);
    if from < s.len() {
        lemma_bounds(s, stops, from + 1);
    }
}

proof fn lemma_back_bound(s: Seq<char>, to: int)
    requires
        0 <= to <= s.len(),
    ensures
        0 <= skip_space_back(s, to) <= to,
    decreases to,
{
    if to > 0 {
        lemma_back_bound(s, to - 1);
    }
}

pub proof fn lemma_find_bounds(s: Seq<char>, pat: Seq<char>, from: int)
    requires
        0 <= from,
    ensures
        find_from(s, pat, from) matches Some(i) ==> from <= i && occurs_at(s, pat, i),
        find_from(s, pat, from) is None ==> forall|i: int| from <= i ==> !occurs_at(s, pat, i),
    decreases s.len() + 1 - from,
{
    if from + pat.len() <= s.len() && !occurs_at(s, pat, from) {
        lemma_find_bounds(s, pat, from + 1);
    }
}

/// Whether `pat` stands in `s` at position `i`.
pub fn is_at(s: &[char], pat: &[char], i: usize) -> (r: bool)
    ensures
        r == occurs_at(s@, pat@, i as int),
{
    if pat.len() > s.len() || i > s.len() - pat.len() {
        return false;
    }
    let end = i + pat.len();
    let mut k: usize = 0;
    while k < pat.len()
        invariant
            k <= pat@.len(),
            end == i + pat@.len(),
            i + pat@.len() <= s@.len(),
            forall|j: int| 0 <= j < k ==> s@[i + j] == pat@[j],
        decreases pat@.len() - k,
    {
        if s[i + k] != pat[k] {
            assert(s@.subrange(i as int, i + pat@.len())[k as int] != pat@[k as int]);
            return false;
        }
        k = k + 1;
    }
    assert(s@.subrange(i as int, i + pat@.len()) =~= pat@);
    true
}

/// The first position at or after `from` where `pat` stands.
pub fn find_slice(s: &[char], pat: &[char], from: usize) -> (r: Option<usize>)
    requires
        from <= s@.len(),
    ensures
        match r {
            Some(i) => find_from(s@, pat@, from as int) == Some(i as int),
            None => find_from(s@, pat@, from as int) is None,
        },
{
    if pat.len() > s.len() {
        return None;
    }
    let last = s.len() - pat.len();
    let mut i = from;
    while i <= last
        invariant
            from <= i,
            last + pat@.len() == s@.len(),
            find_from(s@, pat@, i as int) == find_from(s@, pat@, from as int),
        decreases last + 1 - i,
    {
        if is_at(s, pat, i) {
            return Some(i);
        }
        if i == last {
            assert(find_from(s@, pat@, i + 1) is None);
            return None;
        }
        i = i + 1;
    }
    None
}

/// The first position at or after `from` that holds one of `stops`.
pub fn find_stop(s: &[char], stops: &[char], from: usize) -> (r: usize)
    requires
        from <= s@.len(),
    ensures
        r == stop_from(s@, stops@, from as int),
        from <= r <= s@.len(),
{
    let mut i = from;
    while i < s.len()
        invariant
            from <= i <= s@.len(),
            stop_from(s@, stops@, i as int) == stop_from(s@, stops@, from as int),
        decreases s@.len() - i,
    {
        if is_one_of(s[i], stops) {
            return i;
        }
        i = i + 1;
    }
    i
}

fn is_one_of(c: char, set: &[char]) -> (r: bool)
    ensures
        r == set@.contains(c),
{
    for i in 0..set.len()
        invariant
            forall|j: int| 0 <= j < i ==> set@[j] != c,
    {
        if set[i] == c {
            return true;
        }
    }
    false
}

fn find_non_space(s: &[char], from: usize) -> (r: usize)
    requires
        from <= s@.len(),
    ensures
        r == skip_space(s@, from as int),
        from <= r <= s@.len(),
{
    let mut i = from;
    while i < s.len()
        invariant
            from <= i <= s@.len(),
            skip_space(s@, i as int) == skip_space(s@, from as int),
        decreases s@.len() - i,
    {
        if !is_white_space(s[i]) {
            return i;
        }
        i = i + 1;
    }
    i
}

fn find_space(s: &[char], from: usize) -> (r: usize)
    requires
        from <= s@.len(),
    ensures
        r == space_from(s@, from as int),
        from <= r <= s@.len(),
{
    let mut i = from;
    while i < s.len()
        invariant
            from <= i <= s@.len(),
            space_from(s@, i as int) == space_from(s@, from as int),
        decreases s@.len() - i,
    {
        if is_white_space(s[i]) {
            return i;
        }
        i = i + 1;
    }
    i
}

/// Whether `pat` stands somewhere in `s`.
pub fn has(s: &str, pat: &str) -> (r: bool)
    ensures
        r == contains(s@, pat@),
{
    let cs = chars_of(s);
    let ps = chars_of(pat);
    let r = find_slice(&cs, &ps, 0);
    proof {
        lemma_find_bounds(s@, pat@, 0);
        if r is Some {
            assert(occurs_at(s@, pat@, r->0 as int));
        }
    }
    r.is_some()
}

/// Whether `s` starts with `pat`.
pub fn has_prefix(s: &str, pat: &str) -> (r: bool)
    ensures
        r == starts_with(s@, pat@),
{
    let cs = chars_of(s);
    let ps = chars_of(pat);
    is_at(&cs, &ps, 0)
}

/// The rest of `s` behind the prefix `pat`.
pub fn strip_prefix(s: &str, pat: &str) -> (r: Option<String>)
    ensures
        opt_view(r) == stripped_prefix(s@, pat@),
{
    let cs = chars_of(s);
    let ps = chars_of(pat);
    if is_at(&cs, &ps, 0) {
        Some(text_between(&cs, ps.len(), cs.len()))
    } else {
        None
    }
}

/// What is left of `s` when it starts with `pat` and that is taken off.
pub open spec fn stripped_prefix(s: Seq<char>, pat: Seq<char>) -> Option<Seq<char>> {
    if starts_with(s, pat) {
        Some(s.skip(pat.len() as int))
    } else {
        None
    }
}

/// What is left of `s` when it ends with `pat` and that is taken off.
pub open spec fn stripped_suffix(s: Seq<char>, pat: Seq<char>) -> Option<Seq<char>> {
    if ends_with(s, pat) {
        Some(s.take(s.len() - pat.len()))
    } else {
        None
    }
}

/// The part of `s` before the suffix `pat`.
pub fn strip_suffix(s: &str, pat: &str) -> (r: Option<String>)
    ensures
        opt_view(r) == stripped_suffix(s@, pat@),
{
    let cs = chars_of(s);
    let ps = chars_of(pat);
    if ps.len() <= cs.len() && is_at(&cs, &ps, cs.len() - ps.len()) {
        Some(text_between(&cs, 0, cs.len() - ps.len()))
    } else {
        None
    }
}

// ---------------------------------------------------------------------
// Trimming and splitting
// ---------------------------------------------------------------------

/// `s` without the white space at its two ends.
pub open spec fn trimmed(s: Seq<char>) -> Seq<char> {
    let a = skip_space(s, 0);
    let b = skip_space_back(s, s.len() as int);
    if a < b {
        s.subrange(a, b)
    } else {
        Seq::empty()
    }
}

pub fn trim_slice(s: &[char]) -> (r: &[char])
    ensures
        r@ == trimmed(s@),
{
    let a = find_non_space(s, 0);
    let mut b = s.len();
    while b > 0 && is_white_space(s[b - 1])
        invariant
            b <= s@.len(),
            skip_space_back(s@, b as int) == skip_space_back(s@, s@.len() as int),
        decreases b,
    {
        b = b - 1;
    }
    if a < b {
        slice_subrange(s, a, b)
    } else {
        slice_subrange(s, 0, 0)
    }
}

/// `s` without the white space at its two ends.
pub fn trim(s: &str) -> (r: String)
    ensures
        r@ == trimmed(s@),
{
    let cs = chars_of(s);
    text_of(trim_slice(&cs))
}

/// The maximal runs of characters that are not white space, from `from` on.
pub open spec fn words_from(s: Seq<char>, from: int) -> Seq<Seq<char>>
    decreases s.len() - from,
{
    let a = skip_space(s, from);
    let b = space_from(s, a);
    if from < 0 || from >= s.len() || a >= s.len() || b <= from || b > s.len() {
        Seq::empty()
    } else {
        seq![s.subrange(a, b)] + words_from(s, b)
    }
}

/// The words of `s`: its maximal runs of characters that are not white space.
pub open spec fn words(s: Seq<char>) -> Seq<Seq<char>> {
    words_from(s, 0)
}

proof fn lemma_skip_space_stops(s: Seq<char>, from: int)
    requires
        0 <= from <= s.len(),
    ensures
        skip_space(s, from) < s.len() ==> !white_space(s[skip_space(s, from)]),
        skip_space(s, from) < s.len() ==> space_from(s, skip_space(s, from)) > from,
    decreases s.len() - from,
{
    if from < s.len() {
        lemma_skip_space_stops(s, from + 1);
        lemma_bounds(s, Seq::empty(), from);
        if skip_space(s, from) < s.len() {
            lemma_bounds(s, Seq::empty(), skip_space(s, from) + 1);
        }
    }
}

/// The words of `s`.
pub fn split_words(s: &str) -> (r: Vec<String>)
    ensures
        views(r@) == words(s@),
{
    broadcast use lemma_views_push;

    let cs = chars_of(s);
    let mut out: Vec<String> = Vec::new();
    let mut i: usize = 0;
    assert(views(out@) + words_from(s@, 0) =~= words(s@));
    loop
        invariant
            cs@ == s@,
            i <= s@.len(),
            views(out@) + words_from(s@, i as int) == words(s@),
        decreases s@.len() - i,
    {
        let a = find_non_space(&cs, i);
        if a >= cs.len() {
            assert(words_from(s@, i as int) =~= Seq::empty());
            assert(views(out@) =~= words(s@));
            return out;
        }
        let b = find_space(&cs, a);
        proof {
            lemma_skip_space_stops(s@, i as int);
        }
        let ghost before = views(out@);
        out.push(text_between(&cs, a, b));
        assert(before + (seq![s@.subrange(a as int, b as int)] + words_from(s@, b as int)) =~= views(
            out@,
        ) + words_from(s@, b as int));
        i = b;
    }
}

/// `s` without one carriage return at its end.
pub open spec fn without_cr(s: Seq<char>) -> Seq<char> {
    if s.len() > 0 && s.last() == '\r' {
        s.drop_last()
    } else {
        s
    }
}

/// The lines of `s` from `from` on: a line ends at a line feed, and a
/// carriage return in front of that line feed belongs to the line ending.
/// The line ending of the last line is optional.
pub open spec fn lines_from(s: Seq<char>, from: int) -> Seq<Seq<char>>
    decreases s.len() - from,
{
    let n = stop_from(s, seq!['\n'], from);
    if from < 0 || from >= s.len() || n < from {
        Seq::empty()
    } else if n >= s.len() {
        seq![s.skip(from)]
    } else {
        seq![without_cr(s.subrange(from, n))] + lines_from(s, n + 1)
    }
}

/// The lines of `s`.
pub open spec fn lines(s: Seq<char>) -> Seq<Seq<char>> {
    lines_from(s, 0)
}

/// The lines of `s`.
pub fn split_lines(s: &str) -> (r: Vec<String>)
    ensures
        views(r@) == lines(s@),
{
    broadcast use lemma_views_push;

    let cs = chars_of(s);
    let newline: [char; 1] = ['\n'];
    let mut out: Vec<String> = Vec::new();
    let mut i: usize = 0;
    assert(newline@ =~= seq!['\n']);
    assert(views(out@) + lines_from(s@, 0) =~= lines(s@));
    while i < cs.len()
        invariant
            cs@ == s@,
            newline@ == seq!['\n'],
            i <= s@.len(),
            views(out@) + lines_from(s@, i as int) == lines(s@),
        decreases s@.len() - i,
    {
        let n = find_stop(&cs, &newline, i);
        let ghost before = views(out@);
        if n >= cs.len() {
            out.push(text_between(&cs, i, n));
            assert(s@.subrange(i as int, n as int) =~= s@.skip(i as int));
            assert(before + seq![s@.skip(i as int)] =~= views(out@));
            return out;
        }
        let end: usize = if n > i && cs[n - 1] == '\r' {
            n - 1
        } else {
            n
        };
        out.push(text_between(&cs, i, end));
        assert(s@.subrange(i as int, end as int) =~= without_cr(s@.subrange(i as int, n as int)));
        assert(before + (seq![without_cr(s@.subrange(i as int, n as int))] + lines_from(
            s@,
            n + 1,
        )) =~= views(out@) + lines_from(s@, n + 1));
        i = n + 1;
    }
    assert(views(out@) =~= lines(s@));
    out
}

/// The pieces of `s` from `from` on, cut at each occurrence of `pat`, where
/// occurrences are taken from the left and do not overlap.
pub open spec fn pieces_from(s: Seq<char>, pat: Seq<char>, from: int) -> Seq<Seq<char>>
    decreases s.len() - from,
{
    match find_from(s, pat, from) {
        Some(i) => if pat.len() == 0 || i < from || i + pat.len() > s.len() {
            seq![s.skip(from)]
        } else {
            seq![s.subrange(from, i)] + pieces_from(s, pat, i + pat.len())
        },
        None => seq![s.skip(from)],
    }
}

/// The pieces of `s` between the occurrences of `pat`.
pub open spec fn pieces(s: Seq<char>, pat: Seq<char>) -> Seq<Seq<char>> {
    pieces_from(s, pat, 0)
}

/// The pieces of `s` between the occurrences of `pat`.
pub fn split_on(s: &str, pat: &str) -> (r: Vec<String>)
    requires
        pat@.len() > 0,
    ensures
        views(r@) == pieces(s@, pat@),
{
    broadcast use lemma_views_push;

    let cs = chars_of(s);
    let ps = chars_of(pat);
    let mut out: Vec<String> = Vec::new();
    let mut i: usize = 0;
    assert(views(out@) + pieces_from(s@, pat@, 0) =~= pieces(s@, pat@));
    loop
        invariant
            cs@ == s@,
            ps@ == pat@,
            pat@.len() > 0,
            i <= s@.len(),
            views(out@) + pieces_from(s@, pat@, i as int) == pieces(s@, pat@),
        decreases s@.len() - i,
    {
        let ghost before = views(out@);
        proof {
            lemma_find_bounds(s@, pat@, i as int);
        }
        match find_slice(&cs, &ps, i) {
            Some(n) => {
                out.push(text_between(&cs, i, n));
                assert(before + (seq![s@.subrange(i as int, n as int)] + pieces_from(
                    s@,
                    pat@,
                    n + pat@.len(),
                )) =~= views(out@) + pieces_from(s@, pat@, n + pat@.len()));
                let size = cs.len();
                assert(n + ps.len() <= size);
                i = n + ps.len();
            },
            None => {
                out.push(text_between(&cs, i, cs.len()));
                assert(s@.subrange(i as int, s@.len() as int) =~= s@.skip(i as int));
                assert(before + seq![s@.skip(i as int)] =~= views(out@));
                return out;
            },
        }
    }
}

/// The concatenation of `parts` with `sep` between neighbours.
pub open spec fn joined(parts: Seq<Seq<char>>, sep: Seq<char>) -> Seq<char>
    decreases parts.len(),
{
    if parts.len() == 0 {
        Seq::empty()
    } else if parts.len() == 1 {
        parts[0]
    } else {
        joined(parts.drop_last(), sep) + sep + parts.last()
    }
}

/// The concatenation of `parts` with `sep` between neighbours.
pub fn join(parts: &Vec<String>, sep: &str) -> (r: String)
    ensures
        r@ == joined(views(parts@), sep@),
{
    let mut out = String::new();
    for i in 0..parts.len()
        invariant
            out@ == joined(views(parts@).take(i as int), sep@),
    {
        let ghost v = views(parts@);
        assert(v.take(i + 1).drop_last() =~= v.take(i as int));
        assert(v.take(i + 1).last() == v[i as int]);
        if i > 0 {
            out.append(sep);
            out.append(parts[i].as_str());
        } else {
            out.append(parts[i].as_str());
            assert(out@ =~= v[0]);
        }
    }
    assert(views(parts@).take(parts@.len() as int) =~= views(parts@));
    out
}

/// `s` with each occurrence of `pat` replaced by `to`.
pub open spec fn replaced(s: Seq<char>, pat: Seq<char>, to: Seq<char>) -> Seq<char> {
    joined(pieces(s, pat), to)
}

/// `s` with each occurrence of `pat` replaced by `to`.
pub fn replace(s: &str, pat: &str, to: &str) -> (r: String)
    requires
        pat@.len() > 0,
    ensures
        r@ == replaced(s@, pat@, to@),
{
    let parts = split_on(s, pat);
    join(&parts, to)
}

} // verus!

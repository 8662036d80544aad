//! Unix paths as text. A path is a sequence of components: repeated
//! separators and a trailing separator are ignored, and so is `.` except as
//! the very first component.

use crate::text::{chars_of, find_stop, opt_view, same, stop_from, text_between, views};
use vstd::prelude::*;

verus! {

/// The path starts at the root directory.
pub open spec fn absolute(s: Seq<char>) -> bool {
    s.len() > 0 && s[0] == '/'
}

/// The segment of `s` from `a` up to `b` is a component.
pub open spec fn is_component(s: Seq<char>, a: int, b: int) -> bool {
    a < b && (a == 0 || s.subrange(a, b) != seq!['.'])
}

/// The positions of the components of `s` from `from` on: where each one
/// begins and ends.
pub open spec fn ranges_from(s: Seq<char>, from: int) -> Seq<(int, int)>
    decreases s.len() + 1 - from,
{
    let end = stop_from(s, seq!['/'], from);
    if from < 0 || from >= s.len() || end < from || end > s.len() {
        Seq::empty()
    } else if is_component(s, from, end) {
        seq![(from, end)] + ranges_from(s, end + 1)
    } else {
        ranges_from(s, end + 1)
    }
}

/// The positions of the components of `s`, without the root.
pub open spec fn ranges(s: Seq<char>) -> Seq<(int, int)> {
    ranges_from(s, 0)
}

/// The components of `s`, without the root.
pub open spec fn parts(s: Seq<char>) -> Seq<Seq<char>> {
    ranges(s).map_values(|r: (int, int)| s.subrange(r.0, r.1))
}

/// A component that names an entry of the directory before it.
pub open spec fn normal(part: Seq<char>) -> bool {
    part != seq!['.'] && part != seq!['.', '.']
}

/// The last component, if it names an entry.
pub open spec fn name_of(s: Seq<char>) -> Option<Seq<char>> {
    if parts(s).len() > 0 && normal(parts(s).last()) {
        Some(parts(s).last())
    } else {
        None
    }
}

/// The position of the last `.` before `to`; -1 if there is none.
pub open spec fn last_dot(s: Seq<char>, to: int) -> int
    decreases to,
{
    if to <= 0 {
        -1
    } else if s[to - 1] == '.' {
        to - 1
    } else {
        last_dot(s, to - 1)
    }
}

/// What stands behind the last `.` of the name, unless that `.` begins it.
pub open spec fn extension_of(s: Seq<char>) -> Option<Seq<char>> {
    match name_of(s) {
        Some(name) => {
            let dot = last_dot(name, name.len() as int);
            if dot > 0 {
                Some(name.skip(dot + 1))
            } else {
                None
            }
        },
        None => None,
    }
}

/// The path without its last component; none if it has no component.
pub open spec fn parent_of(s: Seq<char>) -> Option<Seq<char>> {
    let r = ranges(s);
    if r.len() == 0 {
        None
    } else if r.len() >= 2 {
        Some(s.take(r[r.len() - 2].1))
    } else if absolute(s) {
        Some(seq!['/'])
    } else {
        Some(Seq::empty())
    }
}

/// The two paths have the same components.
pub open spec fn path_eq(a: Seq<char>, b: Seq<char>) -> bool {
    absolute(a) == absolute(b) && parts(a) == parts(b)
}

/// The components of `base` are the first components of `s`.
pub open spec fn is_under(s: Seq<char>, base: Seq<char>) -> bool {
    &&& parts(base).len() <= parts(s).len()
    &&& parts(s).take(parts(base).len() as int) == parts(base)
    &&& absolute(base) ==> absolute(s)
    &&& parts(base).len() > 0 ==> absolute(base) == absolute(s)
}

proof fn lemma_ranges_in_bounds(s: Seq<char>, from: int)
    requires
        0 <= from,
    ensures
        forall|i: int|
            #![trigger ranges_from(s, from)[i]]
            0 <= i < ranges_from(s, from).len() ==> from <= ranges_from(s, from)[i].0
                < ranges_from(s, from)[i].1 <= s.len(),
    decreases s.len() + 1 - from,
{
    let end = stop_from(s, seq!['/'], from);
    if from < s.len() {
        crate::text::lemma_bounds(s, seq!['/'], from);
        lemma_ranges_in_bounds(s, end + 1);
        if is_component(s, from, end) {
            assert forall|i: int| 0 <= i < ranges_from(s, from).len() implies from
                <= #[trigger] ranges_from(s, from)[i].0 < ranges_from(s, from)[i].1 <= s.len() by {
                if i > 0 {
                    assert(ranges_from(s, from)[i] == ranges_from(s, end + 1)[i - 1]);
                }
            }
        }
    }
}

/// Each component ends before the next one begins.
proof fn lemma_ranges_apart(s: Seq<char>, from: int)
    requires
        0 <= from,
    ensures
        forall|i: int, j: int|
            #![trigger ranges_from(s, from)[i], ranges_from(s, from)[j]]
            0 <= i < j < ranges_from(s, from).len() ==> ranges_from(s, from)[i].1 < ranges_from(
                s,
                from,
            )[j].0,
    decreases s.len() + 1 - from,
{
    let end = stop_from(s, seq!['/'], from);
    if from < s.len() {
        crate::text::lemma_bounds(s, seq!['/'], from);
        lemma_ranges_apart(s, end + 1);
        lemma_ranges_in_bounds(s, end + 1);
        let all = ranges_from(s, from);
        let rest = ranges_from(s, end + 1);
        assert forall|i: int, j: int|
            #![trigger all[i], all[j]]
            0 <= i < j < all.len() implies all[i].1 < all[j].0 by {
            if is_component(s, from, end) {
                assert(all[j] == rest[j - 1]);
                if i > 0 {
                    assert(all[i] == rest[i - 1]);
                }
            } else {
                assert(all[i] == rest[i] && all[j] == rest[j]);
            }
        }
    }
}

/// A path is longer than its parent.
pub proof fn lemma_parent_is_shorter(s: Seq<char>)
    ensures
        parent_of(s) matches Some(up) ==> up.len() < s.len(),
{
    let r = ranges(s);
    lemma_ranges_in_bounds(s, 0);
    lemma_ranges_apart(s, 0);
    if r.len() > 0 {
        assert(r[r.len() - 1].0 < s.len());
        if r.len() >= 2 {
            assert(r[r.len() - 2].1 < r[r.len() - 1].0);
        } else if absolute(s) && s.len() == 1 {
            crate::text::lemma_bounds(s, seq!['/'], 0);
            assert(stop_from(s, seq!['/'], 0) == 0) by {
                assert(seq!['/'][0] == '/');
                assert(seq!['/'].contains(s[0]));
            }
            assert(ranges_from(s, 1) =~= Seq::empty());
            assert(r =~= Seq::empty());
        }
    }
}

/// The positions of the components of a path.
fn find_ranges(cs: &[char]) -> (r: Vec<(usize, usize)>)
    ensures
        r@.map_values(|p: (usize, usize)| (p.0 as int, p.1 as int)) == ranges(cs@),
{
    let slash: [char; 1] = ['/'];
    assert(slash@ =~= seq!['/']);
    let mut out: Vec<(usize, usize)> = Vec::new();
    let mut i: usize = 0;
    let size = cs.len();
    let ghost model = |p: (usize, usize)| (p.0 as int, p.1 as int);
    assert(out@.map_values(model) + ranges_from(cs@, 0) =~= ranges(cs@));
    while i < size
        invariant
            slash@ == seq!['/'],
            size == cs@.len(),
            model == (|p: (usize, usize)| (p.0 as int, p.1 as int)),
            out@.map_values(model) + ranges_from(cs@, i as int) == ranges(cs@),
        decreases size - i,
    {
        let end = find_stop(cs, &slash, i);
        let ghost before = out@;
        if i < end && (i == 0 || end - i != 1 || cs[i] != '.') {
            proof {
                if i != 0 && cs@.subrange(i as int, end as int) == seq!['.'] {
                    assert(cs@.subrange(i as int, end as int).len() == 1);
                    assert(cs@.subrange(i as int, end as int)[0] == '.');
                }
            }
            out.push((i, end));
            assert(before.map_values(model) + (seq![(i as int, end as int)] + ranges_from(
                cs@,
                end + 1,
            )) =~= out@.map_values(model) + ranges_from(cs@, end + 1));
        } else {
            assert(!is_component(cs@, i as int, end as int)) by {
                if i < end {
                    assert(cs@.subrange(i as int, end as int) =~= seq!['.']);
                }
            }
        }
        if end >= size {
            assert(ranges_from(cs@, end + 1) =~= Seq::empty());
            assert(out@.map_values(model) =~= ranges(cs@));
            return out;
        }
        i = end + 1;
    }
    assert(out@.map_values(model) =~= ranges(cs@));
    out
}

/// The components of a path, without the root.
pub fn components(s: &str) -> (r: Vec<String>)
    ensures
        views(r@) == parts(s@),
{
    broadcast use crate::text::lemma_views_push;

    let cs = chars_of(s);
    let found = find_ranges(&cs);
    let ghost model = |p: (usize, usize)| (p.0 as int, p.1 as int);
    proof {
        lemma_ranges_in_bounds(s@, 0);
    }
    let mut out: Vec<String> = Vec::new();
    for i in 0..found.len()
        invariant
            cs@ == s@,
            model == (|p: (usize, usize)| (p.0 as int, p.1 as int)),
            found@.map_values(model) == ranges(s@),
            views(out@) == parts(s@).take(i as int),
            forall|j: int|
                #![trigger ranges(s@)[j]]
                0 <= j < ranges(s@).len() ==> 0 <= ranges(s@)[j].0 < ranges(s@)[j].1 <= s@.len(),
    {
        assert(ranges(s@)[i as int] == model(found@[i as int]));
        out.push(text_between(&cs, found[i].0, found[i].1));
        assert(parts(s@).take(i + 1) =~= parts(s@).take(i as int).push(parts(s@)[i as int]));
    }
    assert(found@.len() == ranges(s@).len());
    assert(parts(s@).take(found@.len() as int) =~= parts(s@));
    out
}

/// Whether the path starts at the root directory.
pub fn is_absolute(s: &str) -> (r: bool)
    ensures
        r == absolute(s@),
{
    let cs = chars_of(s);
    cs.len() > 0 && cs[0] == '/'
}

/// Whether a component names an entry of the directory before it.
pub fn is_normal(part: &str) -> (r: bool)
    ensures
        r == normal(part@),
{
    proof {
        reveal_strlit(".");
        reveal_strlit("..");
        assert("."@ =~= seq!['.']);
        assert(".."@ =~= seq!['.', '.']);
    }
    !same(part, ".") && !same(part, "..")
}

/// The last component of a path, if it names an entry.
pub fn file_name(s: &str) -> (r: Option<String>)
    ensures
        opt_view(r) == name_of(s@),
{
    let all = components(s);
    let n = all.len();
    assert(parts(s@).len() == n);
    if n == 0 {
        return None;
    }
    let last = all[n - 1].clone();
    assert(views(all@)[n - 1] == last@);
    if is_normal(last.as_str()) {
        Some(last)
    } else {
        None
    }
}

/// What stands behind the last `.` of a path's name, unless that begins it.
pub fn extension(s: &str) -> (r: Option<String>)
    ensures
        opt_view(r) == extension_of(s@),
{
    match file_name(s) {
        Some(name) => {
            let cs = chars_of(name.as_str());
            let mut to = cs.len();
            while to > 0 && cs[to - 1] != '.'
                invariant
                    to <= cs@.len(),
                    last_dot(cs@, to as int) == last_dot(cs@, cs@.len() as int),
                decreases to,
            {
                to = to - 1;
            }
            if to > 1 {
                Some(text_between(&cs, to, cs.len()))
            } else {
                None
            }
        },
        None => None,
    }
}

/// The path without its last component.
pub fn parent(s: &str) -> (r: Option<String>)
    ensures
        opt_view(r) == parent_of(s@),
{
    let cs = chars_of(s);
    let found = find_ranges(&cs);
    let ghost model = |p: (usize, usize)| (p.0 as int, p.1 as int);
    let n = found.len();
    assert(ranges(s@).len() == n);
    if n == 0 {
        return None;
    }
    if n >= 2 {
        proof {
            lemma_ranges_in_bounds(s@, 0);
            assert(ranges(s@)[n - 2] == model(found@[n - 2]));
        }
        let r = text_between(&cs, 0, found[n - 2].1);
        assert(r@ =~= s@.take(ranges(s@)[n - 2].1));
        Some(r)
    } else if cs.len() > 0 && cs[0] == '/' {
        proof {
            reveal_strlit("/");
            assert("/"@ =~= seq!['/']);
        }
        Some("/".to_owned())
    } else {
        Some(String::new())
    }
}

fn same_texts(a: &Vec<String>, b: &Vec<String>) -> (r: bool)
    ensures
        r == (views(a@) == views(b@)),
{
    if a.len() != b.len() {
        assert(views(a@).len() != views(b@).len());
        return false;
    }
    for i in 0..a.len()
        invariant
            a@.len() == b@.len(),
            forall|j: int| 0 <= j < i ==> a@[j]@ == b@[j]@,
    {
        if !same(a[i].as_str(), b[i].as_str()) {
            assert(views(a@)[i as int] != views(b@)[i as int]);
            return false;
        }
    }
    assert(views(a@) =~= views(b@));
    true
}

/// Whether two paths have the same components.
pub fn same_path(a: &str, b: &str) -> (r: bool)
    ensures
        r == path_eq(a@, b@),
{
    let x = components(a);
    let y = components(b);
    is_absolute(a) == is_absolute(b) && same_texts(&x, &y)
}

/// Whether the components of `base` are the first components of `s`.
pub fn starts_with(s: &str, base: &str) -> (r: bool)
    ensures
        r == is_under(s@, base@),
{
    let x = components(s);
    let y = components(base);
    assert(parts(s@).len() == x@.len());
    assert(parts(base@).len() == y@.len());
    if y.len() > x.len() {
        return false;
    }
    let s_abs = is_absolute(s);
    let base_abs = is_absolute(base);
    if base_abs && !s_abs {
        return false;
    }
    if y.len() > 0 && base_abs != s_abs {
        return false;
    }
    for i in 0..y.len()
        invariant
            views(x@) == parts(s@),
            views(y@) == parts(base@),
            y@.len() <= x@.len(),
            forall|j: int| 0 <= j < i ==> x@[j]@ == y@[j]@,
    {
        if !same(x[i].as_str(), y[i].as_str()) {
            proof {
                assert(views(x@)[i as int] == x@[i as int]@);
                assert(views(y@)[i as int] == y@[i as int]@);
                assert(parts(s@).take(parts(base@).len() as int)[i as int] != parts(base@)[i as int]);
            }
            return false;
        }
    }
    proof {
        assert forall|j: int| 0 <= j < parts(base@).len() implies parts(s@).take(
            parts(base@).len() as int,
        )[j] == parts(base@)[j] by {
            assert(views(x@)[j] == x@[j]@);
            assert(views(y@)[j] == y@[j]@);
        }
        assert(parts(s@).take(parts(base@).len() as int) =~= parts(base@));
    }
    true
}

} // verus!

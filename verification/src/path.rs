//! Paths of files, as text whose components a slash separates. Where a system has other separators,
//! the program hands paths over with slashes in their place.
use vstd::prelude::*;

use crate::filenames::{law_text_is_shown, shown, shown_name, unmarked};
use crate::text::{chars_of, same_chars, string_of};

verus! {

/// The first slash from a place on, or the end.
pub open spec fn next_slash(s: Seq<char>, i: int) -> int
    decreases s.len() - i,
{
    if i >= s.len() || s[i] == '/' {
        i
    } else {
        next_slash(s, i + 1)
    }
}

/// Where the components from a place on begin and end. Empty ones do not count, nor does a full
/// stop alone other than at the very beginning.
pub open spec fn components_from(s: Seq<char>, i: int) -> Seq<(int, int)>
    decreases s.len() - i,
    via components_from_decreases
{
    if i >= s.len() {
        seq![]
    } else if s[i] == '/' {
        components_from(s, i + 1)
    } else {
        let j = next_slash(s, i);
        if i > 0 && s.subrange(i, j) == seq!['.'] {
            components_from(s, j)
        } else {
            seq![(i, j)] + components_from(s, j)
        }
    }
}

#[via_fn]
proof fn components_from_decreases(s: Seq<char>, i: int) {
    if i < s.len() && s[i] != '/' {
        lemma_next_slash(s, i + 1);
    }
}

proof fn lemma_next_slash(s: Seq<char>, i: int)
    ensures
        next_slash(s, i) >= i,
        i <= s.len() ==> next_slash(s, i) <= s.len(),
    decreases s.len() - i,
{
    if i < s.len() && s[i] != '/' {
        lemma_next_slash(s, i + 1);
    }
}

/// Where the components of a path begin and end. The root is a component of its own.
pub open spec fn components(s: Seq<char>) -> Seq<(int, int)> {
    (if s.len() > 0 && s[0] == '/' {
        seq![(0, 1)]
    } else {
        seq![]
    }) + components_from(s, 0)
}

/// The text of a component.
pub open spec fn component(s: Seq<char>, k: int) -> Seq<char> {
    s.subrange(components(s)[k].0, components(s)[k].1)
}

/// The last component, if that is the name of a file.
pub open spec fn file_name(s: Seq<char>) -> Option<Seq<char>> {
    let n = components(s).len() as int;
    if n == 0 {
        None
    } else {
        let last = component(s, n - 1);
        if last == seq!['/'] || last == seq!['.'] || last == seq!['.', '.'] {
            None
        } else {
            Some(last)
        }
    }
}

/// The last full stop before a place, or -1.
pub open spec fn last_stop(s: Seq<char>, i: int) -> int
    decreases i,
{
    if i <= 0 {
        -1
    } else if s[i - 1] == '.' {
        i - 1
    } else {
        last_stop(s, i - 1)
    }
}

/// What stands behind the last full stop of the name of a file, unless the name begins with it.
pub open spec fn extension(s: Seq<char>) -> Option<Seq<char>> {
    match file_name(s) {
        Some(name) => {
            let i = last_stop(name, name.len() as int);
            if i > 0 {
                Some(name.skip(i + 1))
            } else {
                None
            }
        },
        None => None,
    }
}

/// The path without its last component, unless it is empty or the root.
pub open spec fn parent(s: Seq<char>) -> Option<Seq<char>> {
    let n = components(s).len() as int;
    if n == 0 || component(s, n - 1) == seq!['/'] {
        None
    } else {
        Some(leading(s, n - 1))
    }
}

/// The path of the first components.
pub open spec fn leading(s: Seq<char>, k: int) -> Seq<char> {
    if k <= 0 {
        seq![]
    } else {
        s.take(components(s)[k - 1].1)
    }
}

/// The path of the components from a given one on.
pub open spec fn trailing(s: Seq<char>, k: int) -> Seq<char> {
    let c = components(s);
    if k >= c.len() {
        seq![]
    } else {
        s.subrange(c[k].0, c.last().1)
    }
}

/// Whether the spans are parts of a text that follow one another.
pub open spec fn spans_inside(c: Seq<(int, int)>, from: int, to: int) -> bool {
    &&& forall|k: int| 0 <= k < c.len() ==> from <= (#[trigger] c[k]).0 < c[k].1 <= to
    &&& forall|k: int, m: int| 0 <= k < m < c.len() ==> (#[trigger] c[k]).1 <= (#[trigger] c[m]).0
}

proof fn lemma_components_from(s: Seq<char>, i: int)
    requires
        0 <= i,
    ensures
        spans_inside(components_from(s, i), i, s.len() as int),
    decreases s.len() - i,
{
    if i < s.len() {
        if s[i] == '/' {
            lemma_components_from(s, i + 1);
        } else {
            let j = next_slash(s, i);
            lemma_next_slash(s, i + 1);
            lemma_components_from(s, j);
        }
    }
}

/// Components are parts of the path, and follow one another.
pub proof fn lemma_components(s: Seq<char>)
    ensures
        spans_inside(components(s), 0, s.len() as int),
{
    lemma_components_from(s, 0);
    if s.len() > 0 && s[0] == '/' {
        lemma_components_from(s, 1);
        assert(components_from(s, 0) == components_from(s, 1));
    }
}

/// The first slash from a place on, or the end.
fn find_slash(v: &[char], i: usize) -> (j: usize)
    requires
        i <= v.len(),
    ensures
        j == next_slash(v@, i as int),
        i <= j <= v.len(),
{
    let mut j: usize = i;
    while j < v.len() && v[j] != '/'
        invariant
            i <= j <= v.len(),
            next_slash(v@, i as int) == next_slash(v@, j as int),
        decreases v.len() - j,
    {
        j += 1;
    }
    j
}

/// Where the components of a path begin and end.
pub struct Spans {
    pub spans: Vec<(usize, usize)>,
}

impl Spans {
    pub open spec fn ints(self) -> Seq<(int, int)> {
        self.spans@.map_values(|p: (usize, usize)| (p.0 as int, p.1 as int))
    }

    /// Whether they are those of a path.
    pub open spec fn of(self, s: Seq<char>) -> bool {
        self.ints() == components(s)
    }
}

/// Splits a path into its components.
pub fn split_path(v: &[char]) -> (r: Spans)
    ensures
        r.of(v@),
        forall|k: int|
            0 <= k < r.spans@.len() ==> (#[trigger] r.spans@[k]).0 < r.spans@[k].1 <= v@.len(),
        forall|k: int, m: int|
            0 <= k < m < r.spans@.len() ==> (#[trigger] r.spans@[k]).1 <= (#[trigger] r.spans@[m]).0,
{
    let mut r = Spans { spans: Vec::new() };
    if v.len() > 0 && v[0] == '/' {
        r.spans.push((0, 1));
    }
    let mut i: usize = 0;
    assert(r.ints() + components_from(v@, 0) =~= components(v@));
    while i < v.len()
        invariant
            i <= v.len(),
            r.ints() + components_from(v@, i as int) == components(v@),
        decreases v.len() - i,
    {
        if v[i] == '/' {
            i += 1;
        } else {
            let j: usize = find_slash(v, i);
            proof {
                lemma_next_slash(v@, i + 1);
            }
            let dot: bool = j - i == 1 && v[i] == '.';
            proof {
                let t = v@.subrange(i as int, j as int);
                if dot {
                    assert(t =~= seq!['.']);
                } else if t == seq!['.'] {
                    assert(t.len() == 1 && t[0] == '.');
                }
            }
            let ghost before = r.ints();
            if i > 0 && dot {
            } else {
                r.spans.push((i, j));
                assert(r.ints() =~= before.push((i as int, j as int)));
                assert(r.ints() + components_from(v@, j as int) =~= before + (seq![
                    (i as int, j as int),
                ] + components_from(v@, j as int)));
            }
            i = j;
        }
    }
    proof {
        assert(r.ints() + components_from(v@, i as int) =~= r.ints());
        lemma_components(v@);
        assert forall|k: int| 0 <= k < r.spans@.len() implies (#[trigger] r.spans@[k]).0
            < r.spans@[k].1 <= v@.len() by {
            assert(r.ints()[k] == components(v@)[k]);
        }
        assert forall|k: int, m: int| 0 <= k < m < r.spans@.len() implies (
        #[trigger] r.spans@[k]).1 <= (#[trigger] r.spans@[m]).0 by {
            assert(r.ints()[k] == components(v@)[k]);
            assert(r.ints()[m] == components(v@)[m]);
        }
    }
    r
}

/// The last component of a path, unless it names the directory itself or the one above.
pub fn file_name_in(v: &[char]) -> (r: Option<&[char]>)
    ensures
        match file_name(v@) {
            Some(n) => r matches Some(x) && x@ == n,
            None => r is None,
        },
{
    let c = split_path(v);
    let n: usize = c.spans.len();
    assert(c.ints().len() == n);
    if n == 0 {
        return None;
    }
    let (start, end): (usize, usize) = c.spans[n - 1];
    assert(c.ints()[n - 1] == components(v@)[n - 1]);
    let name = vstd::slice::slice_subrange(v, start, end);
    assert(name@ == component(v@, n - 1));
    if name.len() == 1 && (name[0] == '/' || name[0] == '.') {
        assert(name@ =~= seq![name@[0]]);
        return None;
    }
    if name.len() == 2 && name[0] == '.' && name[1] == '.' {
        assert(name@ =~= seq!['.', '.']);
        return None;
    }
    Some(name)
}

/// The last component of a path, unless it names the directory itself or the one above.
pub fn file_name_of(path: &str) -> (r: Option<String>)
    ensures
        match file_name(path@) {
            Some(n) => r matches Some(x) && x@ == n,
            None => r is None,
        },
{
    let v = chars_of(path);
    match file_name_in(v.as_slice()) {
        Some(n) => Some(string_of(n)),
        None => None,
    }
}

/// What stands behind the last full stop of the name of a file, unless the name begins with it.
pub fn extension_of(v: &[char]) -> (r: Option<&[char]>)
    ensures
        match extension(v@) {
            Some(e) => r matches Some(x) && x@ == e,
            None => r is None,
        },
{
    let name = match file_name_in(v) {
        Some(n) => n,
        None => return None,
    };
    let mut i: usize = name.len();
    while i > 0 && name[i - 1] != '.'
        invariant
            i <= name.len(),
            last_stop(name@, name@.len() as int) == last_stop(name@, i as int),
        decreases i,
    {
        i -= 1;
    }
    if i > 1 {
        Some(vstd::slice::slice_subrange(name, i, name.len()))
    } else {
        None
    }
}

/// The path without its last component, unless it is empty or the root.
pub fn parent_of(path: &str) -> (r: Option<String>)
    ensures
        match parent(path@) {
            Some(p) => r matches Some(x) && x@ == p,
            None => r is None,
        },
{
    let v = chars_of(path);
    let c = split_path(v.as_slice());
    let n: usize = c.spans.len();
    assert(c.ints().len() == n);
    if n == 0 {
        return None;
    }
    let (start, end): (usize, usize) = c.spans[n - 1];
    assert(c.ints()[n - 1] == components(v@)[n - 1]);
    proof {
        let t = component(v@, n - 1);
        if end - start == 1 && v@[start as int] == '/' {
            assert(t =~= seq!['/']);
        } else if t == seq!['/'] {
            assert(t.len() == 1 && t[0] == '/');
        }
    }
    if end - start == 1 && v[start] == '/' {
        return None;
    }
    let stop: usize = if n == 1 {
        0
    } else {
        c.spans[n - 2].1
    };
    assert(n > 1 ==> c.ints()[n - 2] == components(v@)[n - 2]);
    let p = vstd::slice::slice_subrange(v.as_slice(), 0, stop);
    assert(p@ =~= leading(v@, n - 1));
    Some(string_of(p))
}

/// How many components two paths have in common from a given one on, counted from the first.
pub open spec fn common_from(a: Seq<char>, b: Seq<char>, k: int) -> int
    decreases components(a).len() - k,
{
    if k < components(a).len() && k < components(b).len() && component(a, k) == component(b, k) {
        common_from(a, b, k + 1)
    } else {
        k
    }
}

/// How many leading components of the first path all of some paths have, no more than a limit.
pub open spec fn common_to_all(first: Seq<char>, paths: Seq<Seq<char>>, limit: int) -> int
    decreases paths.len(),
{
    if paths.len() == 0 {
        limit
    } else {
        let before = common_to_all(first, paths.drop_last(), limit);
        let here = common_from(first, paths.last(), 0);
        if here < before {
            here
        } else {
            before
        }
    }
}

/// How many components all paths begin with, leaving at least one of the first path. There is no
/// such prefix where the first path has no parent, or is absolute and another one is not.
pub open spec fn prefix_count(paths: Seq<Seq<char>>) -> Option<int> {
    if paths.len() == 0 || parent(paths[0]) is None {
        None
    } else {
        let first = paths[0];
        let k = common_to_all(first, paths, components(first).len() - 1);
        if k == 0 && first[0] == '/' {
            None
        } else {
            Some(k)
        }
    }
}

/// A text without a slash at its beginning.
pub open spec fn without_slash(s: Seq<char>) -> Seq<char> {
    if s.len() > 0 && s[0] == '/' {
        s.skip(1)
    } else {
        s
    }
}

/// What is shown of a path without a prefix of some components.
pub open spec fn short_name(path: Seq<char>, prefix: Option<int>) -> Seq<char> {
    match prefix {
        Some(k) => without_slash(shown(trailing(path, k))),
        None => without_slash(shown(path)),
    }
}

/// The views of strings.
pub open spec fn texts(v: Seq<String>) -> Seq<Seq<char>> {
    v.map_values(|s: String| s@)
}

/// Counts the components that two paths have in common.
fn count_common(a: &[char], b: &[char]) -> (k: usize)
    ensures
        k == common_from(a@, b@, 0),
        k <= components(a@).len(),
{
    let c = split_path(a);
    let d = split_path(b);
    assert(c.ints().len() == c.spans@.len());
    assert(d.ints().len() == d.spans@.len());
    let mut k: usize = 0;
    while k < c.spans.len() && k < d.spans.len()
        invariant
            k <= c.spans@.len(),
            c.of(a@),
            d.of(b@),
            c.spans@.len() == components(a@).len(),
            d.spans@.len() == components(b@).len(),
            forall|k: int| 0 <= k < c.spans@.len() ==> (#[trigger] c.spans@[k]).0 < c.spans@[k].1 <= a@.len(),
            forall|k: int| 0 <= k < d.spans@.len() ==> (#[trigger] d.spans@[k]).0 < d.spans@[k].1 <= b@.len(),
            common_from(a@, b@, 0) == common_from(a@, b@, k as int),
        ensures
            k <= c.spans@.len(),
            common_from(a@, b@, 0) == k,
        decreases c.spans.len() - k,
    {
        assert(c.ints()[k as int] == components(a@)[k as int]);
        assert(d.ints()[k as int] == components(b@)[k as int]);
        let x = vstd::slice::slice_subrange(a, c.spans[k].0, c.spans[k].1);
        let y = vstd::slice::slice_subrange(b, d.spans[k].0, d.spans[k].1);
        assert(x@ == component(a@, k as int));
        assert(y@ == component(b@, k as int));
        if !same_chars(x, y) {
            break;
        }
        k += 1;
    }
    k
}

/// What is shown of a path without a prefix of some components.
fn shorten(path: &[char], prefix: Option<usize>) -> (r: String)
    ensures
        r@ == short_name(
            path@,
            match prefix {
                Some(k) => Some(k as int),
                None => None,
            },
        ),
{
    let c = split_path(path);
    let n: usize = c.spans.len();
    assert(c.ints().len() == n);
    let (start, end): (usize, usize) = match prefix {
        Some(k) => if k < n {
            assert(c.ints()[k as int] == components(path@)[k as int]);
            assert(c.ints()[n - 1] == components(path@)[n - 1]);
            (c.spans[k].0, c.spans[n - 1].1)
        } else {
            (0, 0)
        },
        None => (0, path.len()),
    };
    assert(match prefix {
        Some(k) => trailing(path@, k as int) =~= path@.subrange(start as int, end as int),
        None => path@ =~= path@.subrange(start as int, end as int),
    });
    let rest = string_of(vstd::slice::slice_subrange(path, start, end));
    let text = shown_name(rest.as_str());
    let v = chars_of(text.as_str());
    if v.len() > 0 && v[0] == '/' {
        let r = vstd::slice::slice_subrange(v.as_slice(), 1, v.len());
        assert(r@ =~= v@.skip(1));
        string_of(r)
    } else {
        text
    }
}

/// Counts the components that all paths begin with.
fn count_prefix(paths: &Vec<String>) -> (r: Option<usize>)
    ensures
        prefix_count(texts(paths@)) == match r {
            Some(k) => Some(k as int),
            None => None::<int>,
        },
        r matches Some(k) ==> paths@.len() > 0 && k < components(paths@[0]@).len(),
{
    if paths.len() == 0 {
        return None;
    }
    let ghost all = texts(paths@);
    let first = chars_of(paths[0].as_str());
    assert(all[0] == first@);
    match parent_of(paths[0].as_str()) {
        Some(_) => {},
        None => return None,
    }
    let c = split_path(first.as_slice());
    assert(c.ints().len() == c.spans@.len());
    let limit: usize = c.spans.len() - 1;
    let mut k: usize = limit;
    let mut i: usize = 0;
    assert(all.take(0) =~= Seq::<Seq<char>>::empty());
    while i < paths.len()
        invariant
            i <= paths@.len(),
            all == texts(paths@),
            k <= limit,
            k == common_to_all(first@, all.take(i as int), limit as int),
        decreases paths.len() - i,
    {
        let p = chars_of(paths[i].as_str());
        let here: usize = count_common(first.as_slice(), p.as_slice());
        proof {
            assert(all.take(i + 1).drop_last() =~= all.take(i as int));
            assert(all.take(i + 1).last() == p@);
        }
        if here < k {
            k = here;
        }
        i += 1;
    }
    assert(all.take(i as int) =~= all);
    proof {
        lemma_components(first@);
    }
    assert(first@.len() > 0) by {
        assert(components(first@)[0].0 < components(first@)[0].1 <= first@.len());
    }
    if k == 0 && first[0] == '/' {
        None
    } else {
        Some(k)
    }
}

/// The names of pages without the components that their paths all begin with, and these
/// components, if there are such.
pub fn remove_common_path_prefix(paths: &Vec<String>) -> (r: (Vec<String>, Option<String>))
    ensures
        texts(r.0@) == texts(paths@).map_values(
            |p: Seq<char>| short_name(p, prefix_count(texts(paths@))),
        ),
        match prefix_count(texts(paths@)) {
            Some(k) => r.1 matches Some(p) && p@ == leading(paths@[0]@, k),
            None => r.1 is None,
        },
{
    let count: Option<usize> = count_prefix(paths);
    let ghost prefix = prefix_count(texts(paths@));
    let mut names: Vec<String> = Vec::new();
    let mut i: usize = 0;
    while i < paths.len()
        invariant
            i <= paths@.len(),
            prefix == match count {
                Some(k) => Some(k as int),
                None => None::<int>,
            },
            names@.len() == i,
            forall|j: int| 0 <= j < i ==> (#[trigger] names@[j])@ == short_name(paths@[j]@, prefix),
        decreases paths.len() - i,
    {
        let p = chars_of(paths[i].as_str());
        names.push(shorten(p.as_slice(), count));
        i += 1;
    }
    assert(texts(names@) =~= texts(paths@).map_values(
        |p: Seq<char>| short_name(p, prefix_count(texts(paths@))),
    ));
    let text: Option<String> = match count {
        Some(k) => {
            let first = chars_of(paths[0].as_str());
            let c = split_path(first.as_slice());
            assert(c.ints().len() == c.spans@.len());
            let end: usize = if k == 0 {
                0
            } else {
                assert(c.ints()[k - 1] == components(first@)[k - 1]);
                c.spans[k - 1].1
            };
            let t = vstd::slice::slice_subrange(first.as_slice(), 0, end);
            assert(t@ =~= leading(first@, k as int));
            Some(string_of(t))
        },
        None => None,
    };
    (names, text)
}

/// A prefix that is removed from paths is one of every path.
pub proof fn law_prefix_is_common(paths: Seq<Seq<char>>, i: int, j: int)
    requires
        prefix_count(paths) is Some,
        0 <= i < paths.len(),
        0 <= j < prefix_count(paths)->0,
    ensures
        j < components(paths[0]).len(),
        j < components(paths[i]).len(),
        component(paths[i], j) == component(paths[0], j),
{
    let k = prefix_count(paths)->0;
    lemma_common_to_all(paths[0], paths, components(paths[0]).len() - 1, i);
    lemma_common_below(paths[0], paths[i], 0, j);
}

proof fn lemma_common_to_all(first: Seq<char>, paths: Seq<Seq<char>>, limit: int, i: int)
    requires
        0 <= i < paths.len(),
    ensures
        common_to_all(first, paths, limit) <= common_from(first, paths[i], 0),
        common_to_all(first, paths, limit) <= limit,
    decreases paths.len(),
{
    if i < paths.len() - 1 {
        lemma_common_to_all(first, paths.drop_last(), limit, i);
    } else if paths.len() > 1 {
        lemma_common_to_all(first, paths.drop_last(), limit, 0);
    } else {
        assert(paths.drop_last() =~= Seq::<Seq<char>>::empty());
        assert(common_to_all(first, paths.drop_last(), limit) == limit);
    }
}

proof fn lemma_common_below(a: Seq<char>, b: Seq<char>, k: int, j: int)
    requires
        0 <= k <= j < common_from(a, b, k),
    ensures
        j < components(a).len(),
        j < components(b).len(),
        component(a, j) == component(b, j),
    decreases components(a).len() - k,
{
    if k < j {
        lemma_common_below(a, b, k + 1, j);
    }
}

/// A path inside a directory, or the path itself if it is absolute.
pub open spec fn inside(directory: Seq<char>, name: Seq<char>) -> Seq<char> {
    if name.len() > 0 && name[0] == '/' {
        name
    } else if directory.len() == 0 || directory.last() == '/' {
        directory + name
    } else {
        directory + seq!['/'] + name
    }
}

/// A path inside a directory, or the path itself if it is absolute.
pub fn join_path(directory: &str, name: &str) -> (r: String)
    ensures
        r@ == inside(directory@, name@),
{
    let n = chars_of(name);
    if n.len() > 0 && n[0] == '/' {
        return name.to_owned();
    }
    let d = chars_of(directory);
    let mut r = directory.to_owned();
    if d.len() > 0 && d[d.len() - 1] != '/' {
        r.push('/');
    }
    r.append(name);
    assert(r@ =~= inside(directory@, name@));
    r
}

/// Whether a text can be the name of a file: it is not empty, has no slash, and does not name the
/// directory itself or the one above.
pub open spec fn plain_name(n: Seq<char>) -> bool {
    &&& n.len() > 0
    &&& !n.contains('/')
    &&& n != seq!['.']
    &&& n != seq!['.', '.']
}

/// A path with a slash and a name behind it.
pub open spec fn below(d: Seq<char>, n: Seq<char>) -> Seq<char> {
    d + seq!['/'] + n
}

proof fn lemma_next_slash_found(s: Seq<char>, i: int, j: int)
    requires
        0 <= i <= j <= s.len(),
        forall|k: int| i <= k < j ==> #[trigger] s[k] != '/',
        j == s.len() || s[j] == '/',
    ensures
        next_slash(s, i) == j,
    decreases j - i,
{
    if i < j {
        assert(s[i] != '/');
        lemma_next_slash_found(s, i + 1, j);
    }
}

proof fn lemma_next_slash_below(d: Seq<char>, n: Seq<char>, i: int)
    requires
        0 <= i <= d.len(),
    ensures
        next_slash(below(d, n), i) == next_slash(d, i),
    decreases d.len() - i,
{
    let s = below(d, n);
    if i < d.len() {
        assert(s[i] == d[i]);
        if d[i] != '/' {
            lemma_next_slash_below(d, n, i + 1);
        }
    } else {
        assert(s[i] == '/');
    }
}

proof fn lemma_name_alone(s: Seq<char>, i: int)
    requires
        0 <= i < s.len(),
        plain_name(s.skip(i)),
    ensures
        components_from(s, i) == seq![(i, s.len() as int)],
{
    let n = s.skip(i);
    assert forall|k: int| i <= k < s.len() implies #[trigger] s[k] != '/' by {
        assert(n[k - i] == s[k]);
    }
    lemma_next_slash_found(s, i, s.len() as int);
    assert(s.subrange(i, s.len() as int) =~= n);
    assert(s[i] != '/');
    assert(components_from(s, s.len() as int) =~= seq![]);
    assert(components_from(s, i) =~= seq![(i, s.len() as int)]);
}

proof fn lemma_components_below_from(d: Seq<char>, n: Seq<char>, i: int)
    requires
        plain_name(n),
        0 <= i <= d.len(),
    ensures
        components_from(below(d, n), i) == components_from(d, i).push(
            (d.len() as int + 1, d.len() as int + 1 + n.len()),
        ),
    decreases d.len() - i,
{
    let s = below(d, n);
    let last = (d.len() as int + 1, (d.len() + 1 + n.len()) as int);
    if i == d.len() {
        assert(s[i] == '/');
        assert(s.skip(i + 1) =~= n);
        lemma_name_alone(s, i + 1);
        assert(components_from(d, i) =~= seq![]);
        assert(components_from(s, i) =~= components_from(d, i).push(last));
    } else {
        assert(s[i] == d[i]);
        if d[i] == '/' {
            lemma_components_below_from(d, n, i + 1);
        } else {
            let j = next_slash(d, i);
            lemma_next_slash_below(d, n, i);
            lemma_next_slash(d, i);
            lemma_next_slash(d, i + 1);
            assert(s.subrange(i, j) =~= d.subrange(i, j));
            assert(j > i);
            lemma_components_below_from(d, n, j);
            assert(components_from(s, i) =~= components_from(d, i).push(last));
        }
    }
}

proof fn lemma_components_below(d: Seq<char>, n: Seq<char>)
    requires
        plain_name(n),
        d.len() > 0,
    ensures
        components(below(d, n)) == components(d).push(
            (d.len() as int + 1, d.len() as int + 1 + n.len()),
        ),
        components(d).len() > 0,
{
    lemma_components_below_from(d, n, 0);
    assert(below(d, n)[0] == d[0]);
    assert(components(below(d, n)) =~= components(d).push(
        (d.len() as int + 1, d.len() as int + 1 + n.len()),
    ));
    if d[0] != '/' {
        lemma_next_slash(d, 0);
        assert(components_from(d, 0).len() > 0);
    }
}

proof fn lemma_components_of_name(n: Seq<char>)
    requires
        plain_name(n),
    ensures
        components(n) == seq![(0int, n.len() as int)],
        component(n, 0) == n,
{
    assert(n.skip(0) =~= n);
    lemma_name_alone(n, 0);
    assert(n[0] != '/');
    assert(components(n) =~= seq![(0int, n.len() as int)]);
    assert(n.subrange(0, n.len() as int) =~= n);
}

/// The name of a file is what stands behind the last slash of its path, whatever stands before
/// it, or all of it where there is none.
pub proof fn law_names_of_files(d: Seq<char>, n: Seq<char>)
    requires
        plain_name(n),
    ensures
        file_name(n) == Some(n),
        file_name(seq!['/'] + n) == Some(n),
        file_name(d + seq!['/'] + n) == Some(n),
{
    lemma_components_of_name(n);
    let s = below(d, n);
    assert(n[0] != '/');
    let root = seq!['/'] + n;
    assert(root =~= below(Seq::empty(), n));
    lemma_root(n);
    if d.len() > 0 {
        lemma_components_below(d, n);
        assert(component(s, components(s).len() - 1) =~= n);
    } else {
        assert(s =~= root);
    }
    assert(n != seq!['/']) by {
        if n == seq!['/'] {
            assert(n[0] == '/');
        }
    }
}

proof fn lemma_root(n: Seq<char>)
    requires
        plain_name(n),
    ensures
        components(below(Seq::empty(), n)) == seq![(0int, 1int), (1int, 1 + n.len() as int)],
        component(below(Seq::empty(), n), 1) == n,
        component(below(Seq::empty(), n), 0) == seq!['/'],
{
    let s = below(Seq::empty(), n);
    lemma_components_below_from(Seq::empty(), n, 0);
    assert(components_from(Seq::<char>::empty(), 0) =~= seq![]);
    assert(s[0] == '/');
    assert(components(s) =~= seq![(0int, 1int), (1int, 1 + n.len() as int)]);
    assert(s.subrange(1, 1 + n.len() as int) =~= n);
    assert(s.subrange(0, 1) =~= seq!['/']);
}

/// No name of a file is empty, holds a slash, or names the directory itself or the one above.
pub proof fn law_names_are_plain(s: Seq<char>)
    ensures
        file_name(s) matches Some(n) ==> plain_name(n),
        file_name(seq![]) is None,
        file_name(seq!['/']) is None,
        file_name(seq!['.']) is None,
        file_name(seq!['.', '.']) is None,
{
    let c = components(s);
    if c.len() > 0 {
        let k = c.len() - 1;
        lemma_components(s);
        lemma_no_slash(s, 0);
        let n = component(s, k);
        if n.contains('/') {
            let j = n.index_of('/');
            assert(n[j] == '/');
            if s.len() > 0 && s[0] == '/' && k == 0 {
                assert(c[0] == (0int, 1int));
                assert(n =~= seq!['/']);
            } else {
                let off: int = if s.len() > 0 && s[0] == '/' {
                    1
                } else {
                    0
                };
                assert(c[k] == components_from(s, 0)[k - off]);
                assert(s[c[k].0 + j] == '/');
            }
        }
    }
    assert(components_from(Seq::<char>::empty(), 0) =~= seq![]);
    assert(components(Seq::<char>::empty()).len() == 0);
    let r = seq!['/'];
    assert(components_from(r, 1) =~= seq![]);
    assert(components_from(r, 0) =~= seq![]);
    assert(components(r) =~= seq![(0int, 1int)]);
    assert(component(r, 0) =~= seq!['/']);
    lemma_dots(seq!['.']);
    lemma_dots(seq!['.', '.']);
}

proof fn lemma_dots(s: Seq<char>)
    requires
        s == seq!['.'] || s == seq!['.', '.'],
    ensures
        components(s).len() == 1,
        component(s, 0) == s,
{
    assert(s[0] == '.');
    assert forall|k: int| 0 <= k < s.len() implies #[trigger] s[k] != '/' by {
        assert(s[k] == '.');
    }
    lemma_next_slash_found(s, 0, s.len() as int);
    assert(components_from(s, s.len() as int) =~= seq![]);
    assert(components_from(s, 0) =~= seq![(0int, s.len() as int)]);
    assert(components(s) =~= seq![(0int, s.len() as int)]);
    assert(s.subrange(0, s.len() as int) =~= s);
}

proof fn lemma_slash_free(s: Seq<char>, i: int)
    requires
        0 <= i,
    ensures
        forall|k: int| i <= k < next_slash(s, i) && k < s.len() ==> #[trigger] s[k] != '/',
    decreases s.len() - i,
{
    if i < s.len() && s[i] != '/' {
        lemma_slash_free(s, i + 1);
    }
}

spec fn without_slashes(s: Seq<char>, span: (int, int)) -> bool {
    forall|k: int| span.0 <= k < span.1 ==> #[trigger] s[k] != '/'
}

proof fn lemma_no_slash(s: Seq<char>, i: int)
    requires
        0 <= i,
    ensures
        forall|m: int|
            0 <= m < components_from(s, i).len() ==> without_slashes(
                s,
                #[trigger] components_from(s, i)[m],
            ),
    decreases s.len() - i,
{
    if i < s.len() {
        if s[i] == '/' {
            lemma_no_slash(s, i + 1);
            assert(components_from(s, i) == components_from(s, i + 1));
        } else {
            let j = next_slash(s, i);
            lemma_next_slash(s, i);
            lemma_next_slash(s, i + 1);
            lemma_slash_free(s, i);
            lemma_no_slash(s, j);
            let c = components_from(s, i);
            let rest = components_from(s, j);
            assert forall|m: int| 0 <= m < c.len() implies without_slashes(
                s,
                #[trigger] c[m],
            ) by {
                if c.len() == rest.len() {
                    assert(c[m] == rest[m]);
                } else if m > 0 {
                    assert(c[m] == rest[m - 1]);
                } else {
                    assert(c[0] == (i, j));
                }
            }
        }
    } else {
        assert(components_from(s, i).len() == 0);
    }
}

/// What lies above a file is its path up to the last slash. A name alone lies in the empty path,
/// and one below the root in the root. There is nothing above the root and the empty path.
pub proof fn law_parents(d: Seq<char>, m: Seq<char>, n: Seq<char>)
    requires
        plain_name(m),
        plain_name(n),
    ensures
        parent(n) == Some(Seq::<char>::empty()),
        parent(seq!['/'] + n) == Some(seq!['/']),
        parent(m + seq!['/'] + n) == Some(m),
        parent(d + seq!['/'] + m + seq!['/'] + n) == Some(d + seq!['/'] + m),
        parent(seq!['/']) is None,
        parent(seq![]) is None,
{
    law_names_are_plain(Seq::empty());
    assert(components_from(Seq::<char>::empty(), 0) =~= seq![]);
    let r = seq!['/'];
    assert(components_from(r, 1) =~= seq![]);
    assert(components_from(r, 0) =~= seq![]);
    assert(components(r) =~= seq![(0int, 1int)]);
    assert(component(r, 0) =~= seq!['/']);
    lemma_not_root(n);
    lemma_components_of_name(n);
    lemma_components_of_name(m);
    lemma_root(n);
    let root = below(Seq::empty(), n);
    assert(root =~= seq!['/'] + n);
    assert(root.take(1) =~= seq!['/']);
    let s = below(m, n);
    lemma_components_below(m, n);
    assert(component(s, 1) =~= n);
    assert(s.take(m.len() as int) =~= m);
    let up = below(d, m);
    let t = below(up, n);
    lemma_components_below(up, n);
    assert(component(t, components(t).len() - 1) =~= n);
    if d.len() > 0 {
        lemma_components_below(d, m);
    } else {
        assert(d =~= Seq::empty());
        lemma_root(m);
    }
    assert(components(up).last().1 == up.len());
    assert(components(t)[components(t).len() - 2].1 == up.len());
    assert(t.take(up.len() as int) =~= up);
}

proof fn lemma_not_root(n: Seq<char>)
    requires
        plain_name(n),
    ensures
        n != seq!['/'],
{
    if n == seq!['/'] {
        assert(n[0] == '/');
    }
}

proof fn lemma_last_stop(s: Seq<char>, i: int, j: int)
    requires
        0 <= i <= j <= s.len(),
        forall|k: int| i <= k < j ==> #[trigger] s[k] != '.',
        i == 0 || s[i - 1] == '.',
    ensures
        last_stop(s, j) == i - 1,
    decreases j - i,
{
    if i < j {
        assert(s[j - 1] != '.');
        lemma_last_stop(s, i, j - 1);
    }
}

/// The extension of a file is what stands behind the last full stop of its name. A name without
/// one has none, nor has one that begins with its only one. The directory makes no difference.
pub proof fn law_extensions(d: Seq<char>, stem: Seq<char>, ext: Seq<char>)
    requires
        !stem.contains('/'),
        !ext.contains('/'),
        !ext.contains('.'),
    ensures
        stem.len() > 0 && plain_name(stem + seq!['.'] + ext) ==> extension(
            stem + seq!['.'] + ext,
        ) == Some(ext) && extension(d + seq!['/'] + (stem + seq!['.'] + ext)) == Some(ext),
        ext.len() > 0 ==> extension(ext) is None && extension(seq!['.'] + ext) is None,
        ext.len() > 0 ==> extension(d + seq!['/'] + ext) is None,
{
    let n = stem + seq!['.'] + ext;
    let at = stem.len() as int;
    if stem.len() > 0 && plain_name(n) {
        assert forall|k: int| at + 1 <= k < n.len() implies #[trigger] n[k] != '.' by {
            assert(n[k] == ext[k - at - 1]);
        }
        assert(n[at] == '.');
        lemma_last_stop(n, at + 1, n.len() as int);
        assert(n.skip(at + 1) =~= ext);
        law_names_of_files(d, n);
    }
    if ext.len() > 0 {
        assert forall|k: int| 0 <= k < ext.len() implies #[trigger] ext[k] != '.' && ext[k]
            != '/' by {
            assert(ext.contains(ext[k]));
        }
        assert(ext[0] != '.');
        assert(plain_name(ext)) by {
            if ext == seq!['.'] || ext == seq!['.', '.'] {
                assert(ext[0] == '.');
            }
        }
        lemma_last_stop(ext, 0, ext.len() as int);
        law_names_of_files(d, ext);
        let h = seq!['.'] + ext;
        assert(h[0] == '.');
        assert(h[1] == ext[0]);
        assert(plain_name(h)) by {
            if h.contains('/') {
                let k = h.index_of('/');
                assert(h[k] == '/');
                assert(k > 0);
                assert(ext[k - 1] == '/');
            }
            if h == seq!['.', '.'] {
                assert(h[1] == '.');
            }
        }
        assert forall|k: int| 1 <= k < h.len() implies #[trigger] h[k] != '.' by {
            assert(h[k] == ext[k - 1]);
        }
        lemma_last_stop(h, 1, h.len() as int);
        law_names_of_files(d, h);
    }
}

/// A path inside a directory is the name behind the directory with one slash between them, and its
/// own name is kept. A path from the root on stays what it is.
pub proof fn law_inside(directory: Seq<char>, name: Seq<char>)
    ensures
        directory.len() > 0 && !(name.len() > 0 && name[0] == '/') ==> {
            &&& directory.last() == '/' ==> inside(directory, name) == directory + name
            &&& directory.last() != '/' ==> inside(directory, name) == directory + seq!['/'] + name
        },
        name.len() > 0 && name[0] == '/' ==> inside(directory, name) == name,
        inside(seq![], name) == name,
        plain_name(name) ==> file_name(inside(directory, name)) == Some(name),
{
    assert(Seq::<char>::empty() + name =~= name);
    if plain_name(name) {
        assert(name[0] != '/');
        law_names_of_files(directory, name);
        if directory.len() > 0 && directory.last() == '/' {
            let d = directory.drop_last();
            assert(directory + name =~= d + seq!['/'] + name);
            law_names_of_files(d, name);
        }
    }
}

/// As many components are removed as all paths have in common: where it is fewer than all but the
/// last of the first path, there is a path that has another one next, or none.
pub proof fn law_prefix_is_longest(paths: Seq<Seq<char>>)
    requires
        prefix_count(paths) is Some,
        prefix_count(paths)->0 < components(paths[0]).len() - 1,
    ensures
        ({
            let k = prefix_count(paths)->0;
            exists|i: int|
                0 <= i < paths.len() && (k >= components(#[trigger] paths[i]).len() || component(
                    paths[i],
                    k,
                ) != component(paths[0], k))
        }),
{
    let i = lemma_shortest(paths[0], paths, components(paths[0]).len() - 1);
    let k = prefix_count(paths)->0;
    lemma_common_stops(paths[0], paths[i], 0);
    assert(k >= components(paths[i]).len() || component(paths[i], k) != component(paths[0], k));
}

proof fn lemma_shortest(first: Seq<char>, paths: Seq<Seq<char>>, limit: int) -> (i: int)
    requires
        common_to_all(first, paths, limit) < limit,
    ensures
        0 <= i < paths.len(),
        common_from(first, paths[i], 0) == common_to_all(first, paths, limit),
    decreases paths.len(),
{
    let here = common_from(first, paths.last(), 0);
    if here < common_to_all(first, paths.drop_last(), limit) {
        paths.len() - 1
    } else {
        lemma_shortest(first, paths.drop_last(), limit)
    }
}

proof fn lemma_common_stops(a: Seq<char>, b: Seq<char>, k: int)
    requires
        0 <= k <= components(a).len(),
    ensures
        ({
            let n = common_from(a, b, k);
            &&& k <= n <= components(a).len()
            &&& n < components(a).len() ==> n >= components(b).len() || component(a, n)
                != component(b, n)
        }),
    decreases components(a).len() - k,
{
    if k < components(a).len() && k < components(b).len() && component(a, k) == component(b, k) {
        lemma_common_stops(a, b, k + 1);
    }
}

proof fn lemma_common_at_least(a: Seq<char>, b: Seq<char>, k: int, n: int)
    requires
        0 <= k <= n <= components(a).len(),
        n <= components(b).len(),
        forall|j: int| k <= j < n ==> #[trigger] component(a, j) == component(b, j),
    ensures
        common_from(a, b, k) >= n,
    decreases n - k,
{
    if k < n {
        assert(component(a, k) == component(b, k));
        lemma_common_at_least(a, b, k + 1, n);
    } else {
        lemma_common_stops(a, b, k);
    }
}

proof fn lemma_common_limit(first: Seq<char>, paths: Seq<Seq<char>>, limit: int)
    requires
        forall|i: int| 0 <= i < paths.len() ==> common_from(first, #[trigger] paths[i], 0) >= limit,
    ensures
        common_to_all(first, paths, limit) == limit,
    decreases paths.len(),
{
    if paths.len() > 0 {
        assert forall|i: int| 0 <= i < paths.drop_last().len() implies common_from(
            first,
            #[trigger] paths.drop_last()[i],
            0,
        ) >= limit by {
            assert(paths.drop_last()[i] == paths[i]);
        }
        lemma_common_limit(first, paths.drop_last(), limit);
        let l = paths.len() - 1;
        assert(common_from(first, paths[l], 0) >= limit);
    }
}

/// Files of one directory are shown by their names alone, and the directory is what is removed.
pub proof fn law_files_of_one_directory(d: Seq<char>, names: Seq<Seq<char>>, i: int)
    requires
        d.len() > 0,
        d.last() != '/',
        plain_name(d) || exists|e: Seq<char>, m: Seq<char>|
            plain_name(m) && d == #[trigger] (e + seq!['/'] + m),
        forall|j: int| 0 <= j < names.len() ==> plain_name(#[trigger] names[j]),
        0 <= i < names.len(),
        unmarked(names[i]),
    ensures
        ({
            let paths = names.map_values(|n: Seq<char>| d + seq!['/'] + n);
            &&& prefix_count(paths) is Some
            &&& short_name(paths[i], prefix_count(paths)) == names[i]
            &&& leading(paths[0], prefix_count(paths)->0) == d
        }),
{
    let paths = names.map_values(|n: Seq<char>| d + seq!['/'] + n);
    let c = components(d);
    let k = c.len() as int;
    assert forall|j: int| 0 <= j < names.len() implies components(#[trigger] paths[j]).len() == k
        + 1 && (forall|x: int|
        0 <= x < k ==> #[trigger] component(paths[j], x) == component(d, x)) by {
        assert(plain_name(names[j]));
        assert(paths[j] == below(d, names[j]));
        lemma_components_below(d, names[j]);
        lemma_components(d);
        assert forall|x: int| 0 <= x < k implies #[trigger] component(paths[j], x) == component(
            d,
            x,
        ) by {
            assert(components(paths[j])[x] == c[x]);
            assert(paths[j].subrange(c[x].0, c[x].1) =~= d.subrange(c[x].0, c[x].1));
        }
    }
    assert(k > 0) by {
        lemma_components_below(d, names[i]);
    }
    let first = paths[0];
    assert(first == below(d, names[0]));
    lemma_components_below(d, names[0]);
    assert(component(first, k) =~= names[0]);
    lemma_not_root(names[0]);
    assert(parent(first) is Some);
    assert forall|j: int| 0 <= j < paths.len() implies common_from(first, #[trigger] paths[j], 0)
        >= k by {
        assert forall|x: int| 0 <= x < k implies #[trigger] component(first, x) == component(
            paths[j],
            x,
        ) by {
            assert(component(paths[0], x) == component(d, x));
            assert(component(paths[j], x) == component(d, x));
        }
        lemma_common_at_least(first, paths[j], 0, k);
    }
    lemma_common_limit(first, paths, k);
    assert(prefix_count(paths) == Some(k));
    let p = paths[i];
    let n = names[i];
    assert(p == below(d, n));
    lemma_components_below(d, n);
    assert(trailing(p, k) =~= n);
    law_text_is_shown(n);
    assert(n[0] != '/');
    lemma_ends_at_the_end(d);
    assert(components(first)[k - 1] == c[k - 1]);
    assert(first.take(d.len() as int) =~= d);
}

proof fn lemma_ends_at_the_end(d: Seq<char>)
    requires
        plain_name(d) || exists|e: Seq<char>, m: Seq<char>|
            plain_name(m) && d == #[trigger] (e + seq!['/'] + m),
    ensures
        components(d).len() > 0,
        components(d).last().1 == d.len(),
{
    if plain_name(d) {
        lemma_components_of_name(d);
    } else {
        let (e, m) = choose|e: Seq<char>, m: Seq<char>|
            plain_name(m) && d == #[trigger] (e + seq!['/'] + m);
        if e.len() > 0 {
            lemma_components_below(e, m);
        } else {
            assert(e =~= Seq::empty());
            lemma_root(m);
        }
    }
}

} // verus!

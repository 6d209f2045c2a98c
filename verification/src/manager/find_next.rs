//! Which archive of a directory comes before or after another one.
use vstd::prelude::*;

use crate::decimal::{decimal_bits, parse_double};
use crate::filenames::{bytes_of, name_bytes, shown, shown_name};
use crate::manager::files::{archive_names, has_extension, is_archive_path};
use crate::natsort::{and_then, compare_names, compare_numbers, key_with, law_names_antisymmetric, Order, ParsedString};
use crate::path::{file_name, file_name_in, texts};
use crate::pattern::{
    first_match, group_inside, group_of, group_text, manga_source, segment_source, Group, Pattern,
};
use crate::text::{chars_of, string_of};

verus! {

/// The number of a chapter, as the sign and the bits of a double.
#[derive(Clone, Copy, Debug, PartialEq, Eq, Structural)]
pub struct Chapter {
    pub negative: bool,
    pub bits: u64,
}

/// The number that a text with an optional sign is read as.
pub open spec fn signed_number(s: Seq<char>) -> Option<Chapter> {
    let signed = s.len() > 0 && (s[0] == '-' || s[0] == '+');
    match decimal_bits(
        if signed {
            s.skip(1)
        } else {
            s
        },
    ) {
        Some(b) => Some(Chapter { negative: signed && s[0] == '-', bits: b as u64 }),
        None => None,
    }
}

/// The chapter that the name of a file says, by how the expression for such names matches it.
pub open spec fn chapter_of(groups: Option<Seq<Group>>, name: Seq<char>) -> Option<Chapter> {
    match groups {
        Some(g) => match group_text(g, 3, name) {
            Some(s) => signed_number(s),
            None => None,
        },
        None => None,
    }
}

/// The name of the file that a path leads to.
pub open spec fn name_of(path: Seq<char>) -> Seq<char> {
    match file_name(path) {
        Some(n) => n,
        None => seq![],
    }
}

/// The chapter that a path says.
pub open spec fn path_chapter(path: Seq<char>) -> Option<Chapter> {
    let name = shown(name_of(path));
    chapter_of(first_match(manga_source(), name), name)
}

/// The order of chapters. Archives with no known chapter come after those with one.
pub open spec fn compare_chapters(a: Option<Chapter>, b: Option<Chapter>) -> Order {
    match (a, b) {
        (Some(x), Some(y)) => if x.negative && !y.negative {
            Order::Less
        } else if !x.negative && y.negative {
            Order::Greater
        } else if x.negative {
            compare_numbers(y.bits, x.bits)
        } else {
            compare_numbers(x.bits, y.bits)
        },
        (Some(_), None) => Order::Less,
        (None, Some(_)) => Order::Greater,
        (None, None) => Order::Equal,
    }
}

/// The order of archives: by their chapters, then by their paths in natural order.
pub open spec fn compare_archives(a: Seq<char>, b: Seq<char>) -> Order {
    and_then(compare_chapters(path_chapter(a), path_chapter(b)), compare_names(a, b))
}

/// The number that a text with an optional sign is read as.
fn parse_signed(v: &[char]) -> (r: Option<Chapter>)
    ensures
        r == signed_number(v@),
{
    let signed: bool = v.len() > 0 && (v[0] == '-' || v[0] == '+');
    let digits: &[char] = if signed {
        let d = vstd::slice::slice_subrange(v, 1, v.len());
        assert(d@ =~= v@.skip(1));
        d
    } else {
        v
    };
    match parse_double(digits) {
        Some(bits) => Some(Chapter { negative: signed && v[0] == '-', bits }),
        None => None,
    }
}

/// The chapter that the name of a file says, by how the expression for such names matches it.
pub fn find_chapter(groups: &Option<Vec<Group>>, name: &[char]) -> (r: Option<Chapter>)
    requires
        *groups matches Some(v) ==> forall|j: int|
            0 <= j < v@.len() ==> group_inside(#[trigger] v@[j], name@),
    ensures
        r == chapter_of(
            match *groups {
                Some(v) => Some(v@),
                None => None,
            },
            name@,
        ),
{
    match groups {
        Some(v) => match group_of(v.as_slice(), 3, name) {
            Some(s) => parse_signed(s),
            None => None,
        },
        None => None,
    }
}

/// An archive with what it is ordered by.
#[derive(Debug)]
pub struct SortKey {
    pub chapter: Option<Chapter>,
    pub nkey: ParsedString,
    pub path: String,
}

impl SortKey {
    /// The path of the archive.
    pub open spec fn path(self) -> Seq<char> {
        self.path@
    }

    /// Whether the order is that of the path.
    pub open spec fn wf(self) -> bool {
        &&& self.nkey.wf()
        &&& self.nkey.original() == name_bytes(self.path())
        &&& self.chapter == path_chapter(self.path())
    }

    /// An archive, by compiled expressions for names of chapters and for parts of names.
    pub fn new(manga: &Pattern, segment: &Pattern, path: &str) -> (r: Self)
        requires
            manga.source() == manga_source(),
            segment.source() == segment_source(),
        ensures
            r.wf(),
            r.path() == path@,
    {
        let v = chars_of(path);
        let empty: Vec<char> = Vec::new();
        let name: &[char] = match file_name_in(v.as_slice()) {
            Some(n) => n,
            None => empty.as_slice(),
        };
        assert(name@ =~= name_of(path@));
        let text = string_of(name);
        let text = shown_name(text.as_str());
        let name = chars_of(text.as_str());
        let groups = manga.leftmost(text.as_str());
        let bytes = bytes_of(path);
        SortKey {
            chapter: find_chapter(&groups, name.as_slice()),
            nkey: key_with(segment, bytes.as_slice()),
            path: path.to_owned(),
        }
    }

    /// Compares two archives.
    pub fn order(&self, other: &Self) -> (r: Order)
        requires
            self.wf(),
            other.wf(),
        ensures
            r == compare_archives(self.path(), other.path()),
    {
        let by_chapter = match (self.chapter, other.chapter) {
            (Some(x), Some(y)) => if x.negative && !y.negative {
                Order::Less
            } else if !x.negative && y.negative {
                Order::Greater
            } else {
                let (a, b): (u64, u64) = if x.negative {
                    (y.bits, x.bits)
                } else {
                    (x.bits, y.bits)
                };
                if a < b {
                    Order::Less
                } else if a > b {
                    Order::Greater
                } else {
                    Order::Equal
                }
            },
            (Some(_), None) => Order::Less,
            (None, Some(_)) => Order::Greater,
            (None, None) => Order::Equal,
        };
        match by_chapter {
            Order::Equal => self.nkey.order(&other.nkey),
            o => o,
        }
    }
}

/// The order of archives in the direction of a move.
pub open spec fn compare_towards(forwards: bool, a: Seq<char>, b: Seq<char>) -> Order {
    if forwards {
        compare_archives(a, b)
    } else {
        compare_archives(a, b).reversed()
    }
}

/// The paths of archives.
pub open spec fn key_paths(keys: Seq<SortKey>) -> Seq<Seq<char>> {
    keys.map_values(|k: SortKey| k.path())
}

/// Whether all archives are in order.
pub open spec fn keys_wf(keys: Seq<SortKey>) -> bool {
    forall|i: int| 0 <= i < keys.len() ==> (#[trigger] keys[i]).wf()
}

/// Whether the archive at a place is the nearest one in the direction of a move: none comes before
/// it.
pub open spec fn is_nearest(paths: Seq<Seq<char>>, forwards: bool, i: int) -> bool {
    &&& 0 <= i < paths.len()
    &&& forall|j: int|
        0 <= j < paths.len() ==> !(compare_towards(
            forwards,
            #[trigger] paths[j],
            paths[i],
        ) is Less)
}

/// Archives that were found once, so that they need not be looked for again on a long move.
#[derive(Debug)]
pub struct SortKeyCache {
    pub keys: Vec<SortKey>,
}

/// Three archives are in order if two pairs of them are.
proof fn lemma_archives_transitive(a: SortKey, b: SortKey, c: SortKey)
    requires
        a.wf(),
        b.wf(),
        c.wf(),
        !(compare_archives(b.path(), a.path()) is Less),
        !(compare_archives(c.path(), b.path()) is Less),
    ensures
        !(compare_archives(c.path(), a.path()) is Less),
{
    crate::natsort::law_antisymmetric(a.nkey, b.nkey);
    crate::natsort::law_antisymmetric(b.nkey, c.nkey);
    crate::natsort::law_antisymmetric(a.nkey, c.nkey);
    crate::natsort::law_transitive(a.nkey, b.nkey, c.nkey);
    crate::natsort::law_transitive(c.nkey, b.nkey, a.nkey);
    crate::natsort::law_transitive(c.nkey, a.nkey, b.nkey);
    crate::natsort::law_transitive(b.nkey, c.nkey, a.nkey);
}

/// The order of archives is antisymmetric, and only the same archive is equal.
pub proof fn law_archives_antisymmetric(a: Seq<char>, b: Seq<char>)
    ensures
        compare_archives(b, a) == compare_archives(a, b).reversed(),
        compare_archives(a, b) is Equal ==> name_bytes(a) == name_bytes(b),
        a == b ==> compare_archives(a, b) is Equal,
{
    law_names_antisymmetric(a, b);
}

impl SortKeyCache {
    /// The place of the nearest archive.
    fn nearest(&self, forwards: bool) -> (r: usize)
        requires
            keys_wf(self.keys@),
            self.keys@.len() > 0,
        ensures
            is_nearest(key_paths(self.keys@), forwards, r as int),
    {
        let ghost paths = key_paths(self.keys@);
        let mut best: usize = 0;
        let mut i: usize = 1;
        proof {
            law_archives_antisymmetric(paths[0], paths[0]);
        }
        while i < self.keys.len()
            invariant
                best < i <= self.keys@.len(),
                keys_wf(self.keys@),
                paths == key_paths(self.keys@),
                forall|j: int|
                    0 <= j < i ==> !(compare_towards(
                        forwards,
                        #[trigger] paths[j],
                        paths[best as int],
                    ) is Less),
            decreases self.keys.len() - i,
        {
            assert(self.keys@[i as int].wf() && self.keys@[best as int].wf());
            let o = self.keys[i].order(&self.keys[best]);
            let nearer: bool = match (forwards, o) {
                (true, Order::Less) => true,
                (false, Order::Greater) => true,
                _ => false,
            };
            proof {
                law_archives_antisymmetric(paths[i as int], paths[best as int]);
                law_archives_antisymmetric(paths[i as int], paths[i as int]);
            }
            if nearer {
                let ghost old_best = best as int;
                proof {
                    assert forall|j: int| 0 <= j < i + 1 implies !(compare_towards(
                        forwards,
                        #[trigger] paths[j],
                        paths[i as int],
                    ) is Less) by {
                        if j < i {
                            let (x, y, z) = (
                                self.keys@[i as int],
                                self.keys@[old_best],
                                self.keys@[j],
                            );
                            assert(paths[j] == z.path());
                            law_archives_antisymmetric(y.path(), z.path());
                            law_archives_antisymmetric(x.path(), z.path());
                            if forwards {
                                lemma_archives_transitive(x, y, z);
                            } else {
                                lemma_archives_transitive(z, y, x);
                            }
                        }
                    }
                }
                best = i;
            }
            i += 1;
        }
        best
    }

    /// Takes out the nearest archive.
    pub fn pop(&mut self, forwards: bool) -> (r: Option<String>)
        requires
            keys_wf(old(self).keys@),
        ensures
            keys_wf(final(self).keys@),
            old(self).keys@.len() == 0 ==> r is None && final(self).keys@ == old(self).keys@,
            old(self).keys@.len() > 0 ==> r is Some && exists|i: int|
                #![trigger old(self).keys@.remove(i)]
                is_nearest(key_paths(old(self).keys@), forwards, i) && r->0@ == old(
                    self,
                ).keys@[i].path() && final(self).keys@ == old(self).keys@.remove(i),
    {
        if self.keys.len() == 0 {
            return None;
        }
        let i: usize = self.nearest(forwards);
        let ghost before = self.keys@;
        let key = self.keys.remove(i);
        proof {
            assert forall|j: int| 0 <= j < self.keys@.len() implies (#[trigger] self.keys@[j]).wf() by {
                if j < i {
                    assert(self.keys@[j] == before[j]);
                } else {
                    assert(self.keys@[j] == before[j + 1]);
                }
            }
            assert(before.remove(i as int) == self.keys@);
        }
        Some(key.path)
    }
}

/// The archives among paths that come after another one in the direction of a move.
pub open spec fn archives_towards(start: Seq<char>, paths: Seq<Seq<char>>, forwards: bool) -> Seq<
    Seq<char>,
> {
    paths.filter(
        |p: Seq<char>|
            has_extension(p, archive_names()) && compare_towards(forwards, p, start) is Greater,
    )
}

/// Finds the archives that come after another one in the direction of a move, among all paths of
/// its directory.
pub fn for_path(path: &str, listing: &Vec<String>, forwards: bool) -> (r: SortKeyCache)
    ensures
        keys_wf(r.keys@),
        key_paths(r.keys@) == archives_towards(path@, texts(listing@), forwards),
{
    let manga = Pattern::manga();
    let segment = Pattern::segment();
    let start = SortKey::new(&manga, &segment, path);
    let ghost all = texts(listing@);
    let ghost kept = |p: Seq<char>|
        has_extension(p, archive_names()) && compare_towards(forwards, p, path@) is Greater;
    let mut keys: Vec<SortKey> = Vec::new();
    let mut i: usize = 0;
    proof {
        reveal(Seq::filter);
        assert(key_paths(keys@) =~= all.take(0).filter(kept));
    }
    while i < listing.len()
        invariant
            i <= listing@.len(),
            manga.source() == manga_source(),
            segment.source() == segment_source(),
            start.wf(),
            start.path() == path@,
            all == texts(listing@),
            kept == (|p: Seq<char>|
                has_extension(p, archive_names()) && compare_towards(forwards, p, path@) is Greater),
            keys_wf(keys@),
            key_paths(keys@) == all.take(i as int).filter(kept),
        decreases listing.len() - i,
    {
        let ghost before = keys@;
        proof {
            reveal(Seq::filter);
            assert(all.take(i + 1).drop_last() =~= all.take(i as int));
            assert(all.take(i + 1).last() == listing@[i as int]@);
        }
        if is_archive_path(listing[i].as_str()) {
            let key = SortKey::new(&manga, &segment, listing[i].as_str());
            let after: bool = match (forwards, key.order(&start)) {
                (true, Order::Greater) => true,
                (false, Order::Less) => true,
                _ => false,
            };
            if after {
                keys.push(key);
                assert(key_paths(keys@) =~= key_paths(before).push(key.path()));
            }
        }
        i += 1;
    }
    assert(all.take(i as int) =~= all);
    SortKeyCache { keys }
}

/// Archives are taken out in their order.
pub proof fn law_pops_in_order(keys: Seq<SortKey>, forwards: bool, i: int, j: int)
    requires
        is_nearest(key_paths(keys), forwards, i),
        is_nearest(key_paths(keys.remove(i)), forwards, j),
    ensures
        !(compare_towards(forwards, keys.remove(i)[j].path(), keys[i].path()) is Less),
{
    let k = if j < i {
        j
    } else {
        j + 1
    };
    assert(keys.remove(i)[j] == keys[k]);
    assert(key_paths(keys)[k] == keys[k].path());
    assert(key_paths(keys)[i] == keys[i].path());
}

/// Whether an archive is the nearest one of a directory in the direction of a move.
pub open spec fn nearest_is(
    paths: Seq<Seq<char>>,
    start: Seq<char>,
    forwards: bool,
    a: Seq<char>,
) -> bool {
    exists|j: int| #[trigger]
        is_nearest(archives_towards(start, paths, forwards), forwards, j) && archives_towards(
            start,
            paths,
            forwards,
        )[j] == a
}

/// Going to the next archive and back again in the same directory leads to the archive where it
/// started.
pub proof fn law_there_and_back(paths: Seq<Seq<char>>, a: Seq<char>, forwards: bool, i: int)
    requires
        paths.contains(a),
        has_extension(a, archive_names()),
        is_nearest(archives_towards(a, paths, forwards), forwards, i),
    ensures
        nearest_is(paths, archives_towards(a, paths, forwards)[i], !forwards, a),
{
    let there = archives_towards(a, paths, forwards);
    let b = there[i];
    let f = |p: Seq<char>|
        has_extension(p, archive_names()) && compare_towards(forwards, p, a) is Greater;
    let g = |p: Seq<char>|
        has_extension(p, archive_names()) && compare_towards(!forwards, p, b) is Greater;
    let backwards = !forwards;
    let back = archives_towards(b, paths, backwards);
    paths.lemma_filter_pred(f, i);
    law_archives_antisymmetric(a, b);
    let n = choose|n: int| 0 <= n < paths.len() && paths[n] == a;
    assert(g(a));
    paths.lemma_filter_contains(g, n);
    let j = choose|j: int| 0 <= j < back.len() && back[j] == a;
    assert forall|k: int| 0 <= k < back.len() implies !(compare_towards(
        !forwards,
        #[trigger] back[k],
        back[j],
    ) is Less) by {
        let x = back[k];
        paths.lemma_filter_pred(g, k);
        paths.lemma_filter_contains_rev(g, x);
        law_archives_antisymmetric(a, x);
        law_archives_antisymmetric(b, x);
        if f(x) {
            let m = choose|m: int| 0 <= m < paths.len() && paths[m] == x;
            paths.lemma_filter_contains(f, m);
            let q = choose|q: int| 0 <= q < there.len() && there[q] == x;
            assert(!(compare_towards(forwards, there[q], there[i]) is Less));
        }
    }
    assert(is_nearest(back, backwards, j));
}

/// The archives that come next in a direction are those of the directory that come after the current one
/// in their order, or before it where the direction is backwards.
pub proof fn law_archives_lie_in_the_direction(
    start: Seq<char>,
    paths: Seq<Seq<char>>,
    p: Seq<char>,
)
    ensures
        archives_towards(start, paths, true).contains(p) <==> paths.contains(p) && has_extension(
            p,
            archive_names(),
        ) && compare_archives(start, p) is Less,
        archives_towards(start, paths, false).contains(p) <==> paths.contains(p) && has_extension(
            p,
            archive_names(),
        ) && compare_archives(start, p) is Greater,
{
    let f = |p: Seq<char>|
        has_extension(p, archive_names()) && compare_towards(true, p, start) is Greater;
    let g = |p: Seq<char>|
        has_extension(p, archive_names()) && compare_towards(false, p, start) is Greater;
    law_archives_antisymmetric(p, start);
    lemma_filtered(paths, f, p);
    lemma_filtered(paths, g, p);
}

proof fn lemma_filtered(paths: Seq<Seq<char>>, f: spec_fn(Seq<char>) -> bool, p: Seq<char>)
    ensures
        paths.filter(f).contains(p) <==> paths.contains(p) && f(p),
    decreases paths.len(),
{
    reveal(Seq::filter);
    if paths.len() > 0 {
        let rest = paths.drop_last();
        lemma_filtered(rest, f, p);
        assert(paths =~= rest.push(paths.last()));
        let v = rest.filter(f);
        if rest.contains(p) {
            assert(paths[rest.index_of(p)] == p);
        }
        if paths.contains(p) && paths.index_of(p) < rest.len() {
            assert(rest[paths.index_of(p)] == p);
        }
        if f(paths.last()) {
            assert(paths.filter(f) =~= v.push(paths.last()));
            if v.contains(p) {
                assert(v.push(paths.last())[v.index_of(p)] == p);
            }
            if p == paths.last() {
                assert(v.push(paths.last())[v.len() as int] == p);
            }
            if v.push(paths.last()).contains(p) {
                let k = v.push(paths.last()).index_of(p);
                if k < v.len() {
                    assert(v[k] == p);
                }
            }
        } else {
            assert(paths.filter(f) =~= v);
        }
        assert(paths[paths.len() - 1] == paths.last());
    }
}

/// No archive lies between the current one and the next one in a direction.
pub proof fn law_no_archive_is_passed_over(
    start: Seq<char>,
    paths: Seq<Seq<char>>,
    found: Seq<char>,
    p: Seq<char>,
)
    requires
        paths.contains(p),
        has_extension(p, archive_names()),
    ensures
        nearest_is(paths, start, true, found) && compare_archives(start, p) is Less
            ==> !(compare_archives(p, found) is Less),
        nearest_is(paths, start, false, found) && compare_archives(start, p) is Greater
            ==> !(compare_archives(p, found) is Greater),
{
    law_archives_lie_in_the_direction(start, paths, p);
    law_archives_antisymmetric(p, found);
    if nearest_is(paths, start, true, found) && compare_archives(start, p) is Less {
        let v = archives_towards(start, paths, true);
        assert(v[v.index_of(p)] == p);
    }
    if nearest_is(paths, start, false, found) && compare_archives(start, p) is Greater {
        let v = archives_towards(start, paths, false);
        assert(v[v.index_of(p)] == p);
    }
}

/// Archives are ordered by their chapters before anything else, and those without a known one come
/// last. Those of one chapter, and those without any, are in natural order.
pub proof fn law_chapters_come_first(a: Seq<char>, b: Seq<char>)
    ensures
        path_chapter(a) is Some && path_chapter(b) is None ==> compare_archives(a, b) is Less,
        path_chapter(a) is None && path_chapter(b) is Some ==> compare_archives(a, b) is Greater,
        path_chapter(a) == path_chapter(b) ==> compare_archives(a, b) == compare_names(a, b),
        match (path_chapter(a), path_chapter(b)) {
            (Some(x), Some(y)) => {
                &&& !x.negative && !y.negative && x.bits < y.bits ==> compare_archives(a, b) is Less
                &&& !x.negative && !y.negative && x.bits > y.bits ==> compare_archives(
                    a,
                    b,
                ) is Greater
                &&& x.negative && !y.negative ==> compare_archives(a, b) is Less
                &&& x.negative && y.negative && x.bits > y.bits ==> compare_archives(a, b) is Less
            },
            _ => true,
        },
{
}

/// Chapters are ordered by their numbers, whether these have a fraction or not.
pub proof fn law_chapters_by_number(s: Seq<char>, t: Seq<char>)
    requires
        s.len() > 0 && s[0] != '-' && s[0] != '+',
        t.len() > 0 && t[0] != '-' && t[0] != '+',
        crate::decimal::parse_decimal(s) is Some,
        crate::decimal::parse_decimal(t) is Some,
        crate::decimal::decimal_bits(s)->0 < crate::decimal::infinity_bits(),
        crate::decimal::decimal_bits(t)->0 < crate::decimal::infinity_bits(),
        crate::decimal::parse_decimal(s)->0.units() < crate::decimal::parse_decimal(t)->0.units(),
    ensures
        compare_chapters(signed_number(s), signed_number(t)) is Less,
        compare_chapters(signed_number(t), signed_number(s)) is Greater,
{
    crate::decimal::law_decimal_order(s, t);
}

} // verus!

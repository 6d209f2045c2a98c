//! Starting the extraction of archives.
use vstd::prelude::*;

use crate::manager::archive::{Archive, Kind};
use crate::manager::indices::PageIndices;
use crate::manager::manager::{Manager, ManagerWork, Settings};

verus! {

/// An archive with its extraction started.
pub open spec fn started(a: Archive) -> Archive {
    if a.kind == Kind::Compressed(false) {
        Archive { kind: Kind::Compressed(true), ..a }
    } else {
        a
    }
}

/// Whether some work is done in an archive.
pub open spec fn works_in(m: Manager, w: ManagerWork, a: int) -> bool {
    m.position_for(w) matches Some(i) && i.archive_index() == a
}

/// Whether any work is done in an archive.
pub open spec fn needed(m: Manager, a: int) -> bool {
    exists|w: ManagerWork| #[trigger] works_in(m, w, a)
}

/// Starts the extraction of an archive unless it was, and notes that.
fn start_one(archives: &mut Vec<Archive>, a: usize, list: &mut Vec<usize>)
    requires
        a < old(archives)@.len(),
    ensures
        final(archives)@ == old(archives)@.update(a as int, started(old(archives)@[a as int])),
        final(list)@ == if old(archives)@[a as int].kind == Kind::Compressed(false) {
            old(list)@.push(a)
        } else {
            old(list)@
        },
{
    let ghost before = archives@;
    let fresh = archives[a].start_extraction();
    assert(archives@ =~= before.update(a as int, started(before[a as int])));
    if fresh {
        list.push(a);
    }
}

/// Whether the archives of some numbers were started, and no others.
spec fn started_for(
    before: Seq<Archive>,
    after: Seq<Archive>,
    list: Seq<usize>,
    wanted: Seq<usize>,
) -> bool {
    &&& after.len() == before.len()
    &&& forall|a: usize|
        a < after.len() ==> #[trigger] after[a as int] == if wanted.contains(a) {
            started(before[a as int])
        } else {
            before[a as int]
        }
    &&& list.no_duplicates()
    &&& forall|a: usize| #[trigger]
        list.contains(a) <==> a < before.len() && wanted.contains(a) && before[a as int].kind
            == Kind::Compressed(false)
}

proof fn lemma_push<A>(s: Seq<A>, x: A, y: A)
    ensures
        s.push(x).contains(y) <==> s.contains(y) || x == y,
{
    if s.contains(y) {
        let k = s.index_of(y);
        assert(s.push(x)[k] == y);
    }
    if x == y {
        assert(s.push(x)[s.len() as int] == y);
    }
    if s.push(x).contains(y) {
        let k = s.push(x).index_of(y);
        if k < s.len() {
            assert(s[k] == y);
        }
    }
}

/// One more archive.
fn start_also(
    archives: &mut Vec<Archive>,
    a: usize,
    list: &mut Vec<usize>,
    Ghost(before): Ghost<Seq<Archive>>,
    Ghost(wanted): Ghost<Seq<usize>>,
)
    requires
        started_for(before, old(archives)@, old(list)@, wanted),
        a < before.len(),
    ensures
        started_for(before, final(archives)@, final(list)@, wanted.push(a)),
{
    let ghost list0 = list@;
    let ghost arch0 = archives@;
    start_one(archives, a, list);
    proof {
        let now = wanted.push(a);
        assert forall|x: usize| x < archives@.len() implies #[trigger] archives@[x as int]
            == (if now.contains(x) {
            started(before[x as int])
        } else {
            before[x as int]
        }) by {
            lemma_push(wanted, a, x);
            assert(arch0[x as int] == if wanted.contains(x) {
                started(before[x as int])
            } else {
                before[x as int]
            });
        }
        assert(arch0[a as int] == if wanted.contains(a) {
            started(before[a as int])
        } else {
            before[a as int]
        });
        let fresh = arch0[a as int].kind == Kind::Compressed(false);
        if fresh {
            assert(!list0.contains(a));
            assert forall|j: int, k: int|
                0 <= j < list@.len() && 0 <= k < list@.len() && j != k implies list@[j]
                != list@[k] by {
                if j < list0.len() {
                    assert(list0.contains(list0[j]));
                }
                if k < list0.len() {
                    assert(list0.contains(list0[k]));
                }
            }
        }
        assert forall|x: usize| #[trigger]
            list@.contains(x) <==> x < before.len() && now.contains(x) && before[x as int].kind
                == Kind::Compressed(false) by {
            lemma_push(wanted, a, x);
            lemma_push(list0, a, x);
            assert(list0.contains(x) <==> x < before.len() && wanted.contains(x)
                && before[x as int].kind == Kind::Compressed(false));
        }
    }
}

/// Adds the archive of a position, if there is one.
fn push_archive(list: &mut Vec<usize>, i: &Option<PageIndices>)
    ensures
        final(list)@ == match *i {
            Some(p) => old(list)@.push(p.archive_index() as usize),
            None => old(list)@,
        },
{
    if let Some(p) = i {
        list.push(p.a().0);
    }
}

impl Manager {
    /// The archives that work is done in, some of them more than once.
    fn archives_in_use(&self) -> (r: Vec<usize>)
        requires
            self.positions_valid(),
        ensures
            forall|a: usize| #[trigger] r@.contains(a) <==> needed(*self, a as int),
            forall|k: int| 0 <= k < r@.len() ==> #[trigger] r@[k] < self.archives@.len(),
    {
        let mut r: Vec<usize> = Vec::new();
        r.push(self.current.get().a().0);
        let ghost r0 = r@;
        push_archive(&mut r, &self.finalize);
        let ghost r1 = r@;
        push_archive(&mut r, &self.downscale);
        let ghost r2 = r@;
        push_archive(&mut r, &self.load);
        let ghost r3 = r@;
        push_archive(&mut r, &self.upscale);
        let ghost r4 = r@;
        push_archive(&mut r, &self.scan);
        proof {
            let first = self.current.first().archive_index() as usize;
            assert forall|a: usize| #[trigger] r@.contains(a) <==> needed(*self, a as int) by {
                let e = Seq::<usize>::empty();
                lemma_push(e, first, a);
                if let Some(p) = self.finalize {
                    lemma_push(r0, p.archive_index() as usize, a);
                }
                if let Some(p) = self.downscale {
                    lemma_push(r1, p.archive_index() as usize, a);
                }
                if let Some(p) = self.load {
                    lemma_push(r2, p.archive_index() as usize, a);
                }
                if let Some(p) = self.upscale {
                    lemma_push(r3, p.archive_index() as usize, a);
                }
                if let Some(p) = self.scan {
                    lemma_push(r4, p.archive_index() as usize, a);
                }
                assert(r0 =~= e.push(first));
                if r@.contains(a) {
                    assert(works_in(*self, ManagerWork::Current, a as int) || works_in(
                        *self,
                        ManagerWork::Finalize,
                        a as int,
                    ) || works_in(*self, ManagerWork::Downscale, a as int) || works_in(
                        *self,
                        ManagerWork::Load,
                        a as int,
                    ) || works_in(*self, ManagerWork::Upscale, a as int) || works_in(
                        *self,
                        ManagerWork::Scan,
                        a as int,
                    ));
                }
                if needed(*self, a as int) {
                    let w = choose|w: ManagerWork| #[trigger] works_in(*self, w, a as int);
                    assert(works_in(*self, w, a as int));
                }
            }
        }
        r
    }

    /// Starts the extraction of the archives that work is done in, and says of which ones it is to
    /// be started now. None is started twice.
    pub fn start_extractions(&mut self) -> (r: Vec<usize>)
        requires
            old(self).archives_wf(),
            old(self).positions_valid(),
        ensures
            *final(self) == (Manager { archives: final(self).archives, ..*old(self) }),
            final(self).archives@.len() == old(self).archives@.len(),
            forall|a: int|
                0 <= a < final(self).archives@.len() ==> #[trigger] final(self).archives@[a]
                    == if needed(*old(self), a) {
                    started(old(self).archives@[a])
                } else {
                    old(self).archives@[a]
                },
            r@.no_duplicates(),
            forall|a: usize| #[trigger]
                r@.contains(a) <==> a < old(self).archives@.len() && needed(*old(self), a as int)
                    && old(self).archives@[a as int].kind == Kind::Compressed(false),
            forall|s: Settings| old(self).wf(s) ==> #[trigger] final(self).wf(s),
    {
        let wanted = self.archives_in_use();
        let mut r: Vec<usize> = Vec::new();
        let ghost before = *self;
        let mut k: usize = 0;
        while k < wanted.len()
            invariant
                k <= wanted@.len(),
                started_for(before.archives@, self.archives@, r@, wanted@.take(k as int)),
                *self == (Manager { archives: self.archives, ..before }),
                forall|j: int|
                    0 <= j < wanted@.len() ==> #[trigger] wanted@[j] < before.archives@.len(),
            decreases wanted.len() - k,
        {
            start_also(
                &mut self.archives,
                wanted[k],
                &mut r,
                Ghost(before.archives@),
                Ghost(wanted@.take(k as int)),
            );
            k += 1;
            assert(wanted@.take(k as int) =~= wanted@.take(k - 1).push(wanted@[k - 1]));
        }
        let n: usize = self.archives.len();
        proof {
            assert(n == self.archives@.len());
            assert(wanted@.take(k as int) =~= wanted@);
            assert forall|a: int| 0 <= a < self.archives@.len() implies #[trigger] self.archives@[a]
                == (if needed(before, a) {
                started(before.archives@[a])
            } else {
                before.archives@[a]
            }) by {
                let x = a as usize;
                assert(self.archives@[x as int] == if wanted@.contains(x) {
                    started(before.archives@[x as int])
                } else {
                    before.archives@[x as int]
                });
            }
            assert(self.counts() =~= before.counts());
        }
        r
    }
}

/// After extraction was started for the work that is to be done, work can be done in every archive
/// that any is done in.
pub proof fn law_work_finds_extraction_started(before: Manager, after: Manager, w: ManagerWork)
    requires
        before.positions_valid(),
        after == (Manager { archives: after.archives, ..before }),
        after.archives@.len() == before.archives@.len(),
        forall|a: int|
            0 <= a < after.archives@.len() ==> #[trigger] after.archives@[a] == if needed(
                before,
                a,
            ) {
                started(before.archives@[a])
            } else {
                before.archives@[a]
            },
    ensures
        after.position_for(w) matches Some(i) ==> after.archives@[i.archive_index()].kind
            != Kind::Compressed(false),
{
    if let Some(i) = after.position_for(w) {
        let a = i.archive_index();
        assert(works_in(before, w, a));
        assert(before.position_for(w) == Some(i));
        assert(i.valid(before.counts()));
        assert(0 <= a < after.archives@.len());
        assert(after.archives@[a] == started(before.archives@[a]));
    }
}

/// Only archives that pages are extracted from are started, once, and nothing else of them changes.
pub proof fn law_started_archives(a: Archive)
    ensures
        a.kind is Compressed ==> started(a).kind == Kind::Compressed(true),
        !(a.kind is Compressed) ==> started(a) == a,
        started(started(a)) == started(a),
        started(a).pages == a.pages,
        started(a).path == a.path,
        started(a).name == a.name,
        started(a).id == a.id,
{
}

/// Extraction is needed where the current page is, and where any other work is done.
pub proof fn law_where_extraction_is_needed(m: Manager, w: ManagerWork)
    ensures
        m.position_for(w) matches Some(i) ==> needed(m, i.archive_index()),
{
    if let Some(i) = m.position_for(w) {
        assert(works_in(m, w, i.archive_index()));
    }
}

} // verus!

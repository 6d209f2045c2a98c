//! Archives: collections of pages, even if they are only directories.
use vstd::prelude::*;

use crate::com::content::ContainingPath;
use crate::com::displayable::{Displayable, DisplayableView};
use crate::filenames::{
    law_text_is_shown, law_typed_is_itself, shown, shown_name, typed, typed_name, unmarked,
};
use crate::manager::files::{is_rar_path, is_supported_page_extension, page_path};
use crate::manager::indices::PI;
use crate::manager::page::page::{env_view, push_env, Origin, Page, PageInfo, PageState, PageStep};
use crate::manager::page::scanned::Cancels;
use crate::manager::work::Work;
use crate::natsort::{
    bytes_of_names, bytes_of_texts, natural_order, order_names, order_plain,
};
use crate::number::{decimal, decimal_text, lemma_decimal_round_trip, push_decimal};
use crate::path::{
    extension, extension_of, file_name, file_name_of, inside, join_path, law_extensions,
    law_names_are_plain, law_names_of_files, law_parents, leading, parent, parent_of, plain_name,
    prefix_count, remove_common_path_prefix, short_name, texts,
};
use crate::text::{chars_of, same_text, string_of};

verus! {

/// What an archive is.
#[derive(Debug)]
pub enum Kind {
    /// A file that pages are extracted from. The flag says whether that has been started.
    Compressed(bool),
    Directory,
    /// An ordered collection of files, not in the same directory in particular.
    FileSet,
    Broken(String),
}

/// An ordered collection of pages.
#[derive(Debug)]
pub struct Archive {
    pub name: String,
    pub path: String,
    pub kind: Kind,
    pub pages: Vec<Page>,
    /// Just enough to tell archives of the same name apart.
    pub id: u16,
}

/// What to open a path as.
#[derive(Debug)]
pub enum OpenAs {
    Directory,
    /// The directory that a page is in, at that page.
    PageOf(String, String),
    Compressed,
}

/// What to open several paths as.
#[derive(Clone, Copy, Debug, PartialEq, Eq, Structural)]
pub enum OpenSetAs {
    Nothing,
    /// An archive by the first path alone.
    FirstAlone,
    FileSet,
}

/// What a path is opened as.
pub open spec fn opened_as(path: Seq<char>, is_dir: bool, pixbuf: Seq<String>, r: OpenAs) -> bool {
    if is_dir {
        r is Directory
    } else if page_path(path, pixbuf) && parent(path) is Some {
        r matches OpenAs::PageOf(d, f) && Some(d@) == parent(path) && Some(f@) == file_name(path)
    } else {
        r is Compressed
    }
}

/// What to open an absolute path as.
pub fn open_as(path: &str, is_dir: bool, pixbuf: &Vec<String>) -> (r: OpenAs)
    ensures
        opened_as(path@, is_dir, pixbuf@, r),
{
    if is_dir {
        return OpenAs::Directory;
    }
    if is_supported_page_extension(path, pixbuf) {
        if let Some(d) = parent_of(path) {
            return OpenAs::PageOf(d, file_name_of(path).unwrap());
        }
    }
    OpenAs::Compressed
}

/// What to open several paths as, by whether the first one is a directory.
pub fn open_set_as(paths: &Vec<String>, first_is_dir: bool, pixbuf: &Vec<String>) -> (r: OpenSetAs)
    ensures
        r == if paths@.len() == 0 {
            OpenSetAs::Nothing
        } else if first_is_dir || !page_path(paths@[0]@, pixbuf@) {
            OpenSetAs::FirstAlone
        } else {
            OpenSetAs::FileSet
        },
{
    if paths.len() == 0 {
        OpenSetAs::Nothing
    } else if first_is_dir || !is_supported_page_extension(paths[0].as_str(), pixbuf) {
        OpenSetAs::FirstAlone
    } else {
        OpenSetAs::FileSet
    }
}

/// Whether the files of an archive are read by unrar.
pub fn uses_unrar(path: &str, allow_external_extractors: bool, has_unrar: bool) -> (r: bool)
    ensures
        r == (crate::manager::files::has_extension(path@, seq!["rar", "cbr"])
            && allow_external_extractors && has_unrar),
{
    is_rar_path(path) && allow_external_extractors && has_unrar
}

/// The paths among others that are those of pages.
pub open spec fn page_paths(paths: Seq<Seq<char>>, pixbuf: Seq<String>) -> Seq<Seq<char>> {
    paths.filter(|p: Seq<char>| page_path(p, pixbuf))
}

/// Keeps the paths that are those of pages.
pub fn keep_pages(paths: Vec<String>, pixbuf: &Vec<String>) -> (r: Vec<String>)
    ensures
        texts(r@) == page_paths(texts(paths@), pixbuf@),
{
    let ghost all = texts(paths@);
    let ghost kept = |p: Seq<char>| page_path(p, pixbuf@);
    let mut r: Vec<String> = Vec::new();
    let mut i: usize = 0;
    proof {
        reveal(Seq::filter);
        assert(texts(r@) =~= all.take(0).filter(kept));
    }
    while i < paths.len()
        invariant
            i <= paths@.len(),
            all == texts(paths@),
            kept == (|p: Seq<char>| page_path(p, pixbuf@)),
            texts(r@) == all.take(i as int).filter(kept),
        decreases paths.len() - i,
    {
        let ghost before = texts(r@);
        proof {
            reveal(Seq::filter);
            assert(all.take(i + 1).drop_last() =~= all.take(i as int));
            assert(all.take(i + 1).last() == paths@[i as int]@);
        }
        if is_supported_page_extension(paths[i].as_str(), pixbuf) {
            r.push(paths[i].clone());
            assert(texts(r@) =~= before.push(paths@[i as int]@));
        }
        i += 1;
    }
    assert(all.take(i as int) =~= all);
    r
}

/// The name of the file that a page is extracted to.
pub open spec fn extracted_name(rel_path: Seq<char>, index: int) -> Seq<char> {
    decimal(index as nat) + seq!['.'] + extension(rel_path)->0
}

/// The name of the file that a page is extracted to.
pub fn extracted_file(rel_path: &str, index: usize) -> (s: String)
    requires
        extension(rel_path@) is Some,
    ensures
        s@ == extracted_name(rel_path@, index as int),
{
    let v = chars_of(rel_path);
    let ext = string_of(extension_of(v.as_slice()).unwrap());
    let mut s = String::new();
    push_decimal(&mut s, index as u64);
    s.push('.');
    s.append(ext.as_str());
    assert(s@ =~= extracted_name(rel_path@, index as int));
    s
}

/// Whether a page is one of a directory.
pub open spec fn is_directory_page(p: Page, path: Seq<char>, name: Seq<char>, i: int) -> bool {
    &&& p.state is Unscanned
    &&& p.origin matches Origin::Original(o)
    &&& o@ == inside(path, name)
    &&& p.rel_path@ == name
    &&& p.name@ == shown(name)
    &&& p.index == i
}

/// Whether a page is one of a compressed archive.
pub open spec fn is_compressed_page(
    p: Page,
    temp_dir: Seq<char>,
    rel_path: Seq<char>,
    name: Seq<char>,
    i: int,
) -> bool {
    &&& p.state == PageState::Extracting(true)
    &&& p.origin matches Origin::Extracted(o)
    &&& o@ == inside(temp_dir, extracted_name(rel_path, i))
    &&& p.rel_path@ == rel_path
    &&& p.name@ == name
    &&& p.index == i
}

/// Whether a page is one of a set of files.
pub open spec fn is_set_page(p: Page, path: Seq<char>, name: Seq<char>, i: int) -> bool {
    &&& p.state is Unscanned
    &&& p.origin matches Origin::Original(o)
    &&& o@ == path
    &&& p.rel_path@ == typed(name)
    &&& p.name@ == name
    &&& p.index == i
}

/// What is shown of the last component of a path, or something else if it has none.
pub open spec fn file_name_or(path: Seq<char>, other: Seq<char>) -> Seq<char> {
    match file_name(path) {
        Some(n) => shown(n),
        None => other,
    }
}

fn name_or(path: &str, other: &str) -> (r: String)
    ensures
        r@ == file_name_or(path@, other@),
{
    match file_name_of(path) {
        Some(n) => shown_name(n.as_str()),
        None => other.to_owned(),
    }
}

impl Archive {
    /// Whether pages are numbered, and an extracted archive is in a directory.
    pub open spec fn wf(self) -> bool {
        &&& forall|i: int|
            0 <= i < self.pages@.len() ==> (#[trigger] self.pages@[i]).wf() && self.pages@[i].index
                == i
        &&& self.kind is Compressed ==> parent(self.path@) is Some
    }

    /// An archive that could not be opened.
    pub fn new_broken(path: String, error: String, id: u16) -> (r: Self)
        ensures
            r.wf(),
            r.name@ == file_name_or(path@, "Broken"@),
            r.path == path,
            r.kind == Kind::Broken(error),
            r.pages@.len() == 0,
            r.id == id,
    {
        Archive {
            name: name_or(path.as_str(), "Broken"),
            path,
            kind: Kind::Broken(error),
            pages: Vec::new(),
            id,
        }
    }

    /// A directory, by the names of what is in it. Its pages are in natural order.
    pub fn new_directory(path: String, listing: Vec<String>, pixbuf: &Vec<String>, id: u16) -> (r:
        Self)
        ensures
            r.wf(),
            r.name@ == file_name_or(path@, ""@),
            r.path == path,
            r.kind is Directory,
            r.id == id,
            r.pages@.len() == page_paths(texts(listing@), pixbuf@).len(),
            exists|places: Seq<usize>| #[trigger]
                natural_order(
                    bytes_of_names(page_paths(texts(listing@), pixbuf@)),
                    places,
                ) && forall|i: int|
                    0 <= i < r.pages@.len() ==> is_directory_page(
                        #[trigger] r.pages@[i],
                        path@,
                        page_paths(texts(listing@), pixbuf@)[places[i] as int],
                        i,
                    ),
    {
        let names = keep_pages(listing, pixbuf);
        let places = order_names(&names);
        let mut pages: Vec<Page> = Vec::new();
        let ghost t = page_paths(texts(listing@), pixbuf@);
        let mut i: usize = 0;
        while i < places.len()
            invariant
                i <= places@.len(),
                t == texts(names@),
                natural_order(bytes_of_names(t), places@),
                pages@.len() == i,
                forall|j: int|
                    0 <= j < i ==> is_directory_page(
                        #[trigger] pages@[j],
                        path@,
                        t[places@[j] as int],
                        j,
                    ),
            decreases places.len() - i,
        {
            let name: &String = &names[places[i]];
            let abs_path = join_path(path.as_str(), name.as_str());
            assert(name@ == t[places@[i as int] as int]);
            let text = shown_name(name.as_str());
            pages.push(Page::new_original(abs_path, name.clone(), text, i));
            i += 1;
        }
        let n: usize = pages.len();
        assert(n <= usize::MAX);
        Archive { name: name_or(path.as_str(), ""), path, kind: Kind::Directory, pages, id }
    }

    /// A compressed archive, by the paths of what is in it. Its pages are in natural order by
    /// their names without what all their paths begin with.
    pub fn new_compressed(
        path: String,
        entries: Vec<String>,
        pixbuf: &Vec<String>,
        temp_dir: &str,
        id: u16,
    ) -> (r: Self)
        requires
            parent(path@) is Some,
        ensures
            r.wf(),
            r.name@ == file_name_or(path@, ""@),
            r.path == path,
            r.kind == Kind::Compressed(false),
            r.id == id,
            r.pages@.len() == page_paths(texts(entries@), pixbuf@).len(),
            ({
                let t = page_paths(texts(entries@), pixbuf@);
                let names = t.map_values(|p: Seq<char>| short_name(p, prefix_count(t)));
                exists|places: Seq<usize>| #[trigger]
                    natural_order(bytes_of_texts(names), places) && forall|i: int|
                        0 <= i < r.pages@.len() ==> is_compressed_page(
                            #[trigger] r.pages@[i],
                            temp_dir@,
                            t[places[i] as int],
                            names[places[i] as int],
                            i,
                        )
            }),
    {
        let paths = keep_pages(entries, pixbuf);
        let (names, _) = remove_common_path_prefix(&paths);
        let places = order_plain(&names);
        let ghost t = page_paths(texts(entries@), pixbuf@);
        let ghost n = t.map_values(|p: Seq<char>| short_name(p, prefix_count(t)));
        assert(texts(names@) == n);
        let mut pages: Vec<Page> = Vec::new();
        let mut i: usize = 0;
        while i < places.len()
            invariant
                i <= places@.len(),
                t == texts(paths@),
                t == page_paths(texts(entries@), pixbuf@),
                n == texts(names@),
                n.len() == t.len(),
                natural_order(bytes_of_texts(n), places@),
                pages@.len() == i,
                forall|j: int|
                    0 <= j < i ==> is_compressed_page(
                        #[trigger] pages@[j],
                        temp_dir@,
                        t[places@[j] as int],
                        n[places@[j] as int],
                        j,
                    ),
            decreases places.len() - i,
        {
            let at: usize = places[i];
            let rel_path: &String = &paths[at];
            let name: &String = &names[at];
            proof {
                lemma_page_paths(texts(entries@), pixbuf@, at as int);
                assert(rel_path@ == t[at as int]);
                assert(name@ == n[at as int]);
            }
            let file = extracted_file(rel_path.as_str(), i);
            let ext_path = join_path(temp_dir, file.as_str());
            pages.push(Page::new_extracted(ext_path, rel_path.clone(), name.clone(), i));
            i += 1;
        }
        let count: usize = pages.len();
        assert(count <= usize::MAX);
        Archive {
            name: name_or(path.as_str(), ""),
            path,
            kind: Kind::Compressed(false),
            pages,
            id,
        }
    }

    /// A set of files by their absolute paths, in the order that they are given in. What their
    /// paths all begin with is the path of the set.
    pub fn new_fileset(paths: Vec<String>, current_dir: Option<String>, id: u16) -> (r: Self)
        ensures
            r.wf(),
            r.kind is FileSet,
            r.id == id,
            r.path@ == match (prefix_count(texts(paths@)), current_dir) {
                (Some(k), _) => leading(paths@[0]@, k),
                (None, Some(d)) => d@,
                (None, None) => "/"@,
            },
            r.name@ == "files in "@ + shown(r.path@),
            r.pages@.len() == paths@.len(),
            forall|i: int|
                0 <= i < r.pages@.len() ==> is_set_page(
                    #[trigger] r.pages@[i],
                    paths@[i]@,
                    short_name(paths@[i]@, prefix_count(texts(paths@))),
                    i,
                ),
    {
        let (names, prefix) = remove_common_path_prefix(&paths);
        let ghost k = prefix_count(texts(paths@));
        let path: String = match prefix {
            Some(p) => p,
            None => match current_dir {
                Some(d) => d,
                None => "/".to_owned(),
            },
        };
        let mut name = "files in ".to_owned();
        name.append(shown_name(path.as_str()).as_str());
        assert(texts(names@).len() == paths@.len());
        let mut pages: Vec<Page> = Vec::new();
        let mut i: usize = 0;
        while i < paths.len()
            invariant
                i <= paths@.len(),
                names@.len() == paths@.len(),
                k == prefix_count(texts(paths@)),
                texts(names@) == texts(paths@).map_values(|p: Seq<char>| short_name(p, k)),
                pages@.len() == i,
                forall|j: int|
                    0 <= j < i ==> is_set_page(
                        #[trigger] pages@[j],
                        paths@[j]@,
                        short_name(paths@[j]@, k),
                        j,
                    ),
            decreases paths.len() - i,
        {
            assert(texts(names@)[i as int] == short_name(texts(paths@)[i as int], k));
            let rel_path = typed_name(names[i].as_str());
            pages.push(Page::new_original(paths[i].clone(), rel_path, names[i].clone(), i));
            i += 1;
        }
        let count: usize = pages.len();
        assert(count <= usize::MAX);
        Archive { name, path, kind: Kind::FileSet, pages, id }
    }

    /// How many pages there are.
    pub fn page_count(&self) -> (r: usize)
        ensures
            r == self.pages@.len(),
    {
        self.pages.len()
    }

    /// The page to begin with.
    pub fn first_page(&self) -> (r: Option<usize>)
        ensures
            r == if self.pages@.len() > 0 {
                Some(0usize)
            } else {
                None
            },
    {
        if self.pages.len() > 0 {
            Some(0)
        } else {
            None
        }
    }

    /// The page with a name, or the one to begin with if there is none.
    pub fn find_page(&self, child: &str) -> (r: Option<usize>)
        ensures
            if exists|i: int| 0 <= i < self.pages@.len() && (#[trigger] self.pages@[i]).rel_path@
                == child@ {
                r matches Some(i) && i < self.pages@.len() && self.pages@[i as int].rel_path@
                    == child@
            } else {
                r == if self.pages@.len() > 0 {
                    Some(0usize)
                } else {
                    None
                }
            },
    {
        let mut i: usize = 0;
        while i < self.pages.len()
            invariant
                i <= self.pages@.len(),
                forall|j: int| 0 <= j < i ==> (#[trigger] self.pages@[j]).rel_path@ != child@,
            decreases self.pages.len() - i,
        {
            if same_text(self.pages[i].rel_path.as_str(), child) {
                return Some(i);
            }
            i += 1;
        }
        self.first_page()
    }

    pub open spec fn allows_multiple(self) -> bool {
        self.kind is Compressed || self.kind is Broken
    }

    /// Whether there may be other archives before and after it.
    pub fn allow_multiple_archives(&self) -> (r: bool)
        ensures
            r == self.allows_multiple(),
    {
        match self.kind {
            Kind::Compressed(_) | Kind::Broken(_) => true,
            Kind::Directory | Kind::FileSet => false,
        }
    }

    /// The directory that holds the archive or all of its files.
    pub open spec fn in_directory(self, c: ContainingPath) -> bool {
        match self.kind {
            Kind::Compressed(_) => c matches ContainingPath::AssertParent(p) && p@ == self.path@,
            Kind::Directory | Kind::Broken(_) => c matches ContainingPath::TryParent(p) && p@
                == self.path@,
            Kind::FileSet => c matches ContainingPath::Current(p) && p@ == self.path@,
        }
    }

    /// The directory that holds the archive or all of its files.
    pub fn containing_path(&self) -> (r: ContainingPath)
        requires
            self.wf(),
        ensures
            self.in_directory(r),
            r.wf(),
    {
        let p = self.path.clone();
        match self.kind {
            Kind::Compressed(_) => ContainingPath::AssertParent(p),
            Kind::Directory | Kind::Broken(_) => ContainingPath::TryParent(p),
            Kind::FileSet => ContainingPath::Current(p),
        }
    }

    /// What is shown of a page, or of the archive if it has none.
    pub open spec fn shown(self, p: Option<PI>, upscaling: bool) -> DisplayableView {
        match (self.kind, p) {
            (Kind::Broken(e), _) => DisplayableView::Error(e@),
            (_, Some(p)) => self.pages@[p.0 as int].shown(upscaling),
            (Kind::FileSet, None) => DisplayableView::Error(
                "Empty fileset in "@ + shown(self.path@),
            ),
            (_, None) => DisplayableView::Error("Found nothing to display in "@ + self.name@),
        }
    }

    /// What is shown of a page, or of the archive if it has none.
    pub fn get_displayable(&self, p: Option<PI>, upscaling: bool) -> (r: Displayable)
        requires
            self.wf(),
            p matches Some(p) ==> p.0 < self.pages@.len(),
        ensures
            r@ == self.shown(p, upscaling),
            r.wf(),
    {
        match (&self.kind, p) {
            (Kind::Broken(e), _) => Displayable::Error(e.clone()),
            (_, Some(p)) => self.pages[p.0].get_displayable(upscaling),
            (Kind::FileSet, None) => {
                let mut e = "Empty fileset in ".to_owned();
                e.append(shown_name(self.path.as_str()).as_str());
                Displayable::Error(e)
            },
            (_, None) => {
                let mut e = "Found nothing to display in ".to_owned();
                e.append(self.name.as_str());
                Displayable::Error(e)
            },
        }
    }

    /// The name and the path of a page.
    pub open spec fn info(self, p: Option<PI>) -> Option<(Seq<char>, Seq<char>)> {
        match (self.kind, p) {
            (Kind::Broken(_), _) | (_, None) => None,
            (_, Some(p)) => Some(
                (self.pages@[p.0 as int].name@, self.pages@[p.0 as int].absolute_path()),
            ),
        }
    }

    /// The name and the path of a page.
    pub fn get_page_name_and_path(&self, p: Option<PI>) -> (r: Option<(String, String)>)
        requires
            p matches Some(p) ==> p.0 < self.pages@.len(),
        ensures
            match self.info(p) {
                Some(i) => r matches Some(q) && (q.0@, q.1@) == i,
                None => r is None,
            },
    {
        if let Kind::Broken(_) = self.kind {
            return None;
        }
        match p {
            Some(p) => {
                let page: &Page = &self.pages[p.0];
                Some((page.name.clone(), page.get_absolute_file_path().clone()))
            },
            None => None,
        }
    }

    /// Says whether extraction is to be started now, which happens once.
    pub fn start_extraction(&mut self) -> (r: bool)
        ensures
            r == (old(self).kind == Kind::Compressed(false)),
            final(self).kind == (if r {
                Kind::Compressed(true)
            } else {
                old(self).kind
            }),
            final(self).pages == old(self).pages,
            final(self).path == old(self).path,
            final(self).name == old(self).name,
            final(self).id == old(self).id,
            old(self).wf() ==> final(self).wf(),
    {
        match self.kind {
            Kind::Compressed(false) => {
                self.kind = Kind::Compressed(true);
                true
            },
            _ => false,
        }
    }

    /// Whether there is something to do for a page.
    pub open spec fn spec_has_work(self, p: PI, work: Work) -> bool {
        !(self.kind is Broken) && self.pages@[p.0 as int].spec_has_work(work)
    }

    /// Whether there is something to do for a page.
    pub fn has_work(&self, p: PI, work: &Work) -> (r: bool)
        requires
            p.0 < self.pages@.len(),
        ensures
            r == self.spec_has_work(p, *work),
    {
        match self.kind {
            Kind::Compressed(_) | Kind::Directory | Kind::FileSet => {},
            Kind::Broken(_) => return false,
        }
        self.pages[p.0].has_work(work)
    }

    /// Finds out what to do next for a page, and whether to ask for it to be extracted before
    /// others.
    pub fn do_work(&mut self, p: PI, work: &Work) -> (r: (bool, PageStep))
        requires
            p.0 < old(self).pages@.len(),
            old(self).kind != Kind::Compressed(false),
            old(self).pages@[p.0 as int].can_do(*work),
        ensures
            r.0 == old(self).pages@[p.0 as int].jumps(*work),
            r.1 == old(self).pages@[p.0 as int].next_step(*work),
            final(self).pages@.len() == old(self).pages@.len(),
            forall|i: int|
                0 <= i < final(self).pages@.len() && i != p.0 ==> final(self).pages@[i] == old(
                    self,
                ).pages@[i],
            final(self).pages@[p.0 as int].same_file(old(self).pages@[p.0 as int]),
            match old(self).pages@[p.0 as int].state {
                PageState::Extracting(jump) => final(self).pages@[p.0 as int].state
                    == PageState::Extracting(jump && !r.0),
                PageState::Scanned(s) => {
                    &&& final(self).pages@[p.0 as int].state matches PageState::Scanned(q)
                    &&& q.kind == s.after_step(*work)
                    &&& q.converted_file == s.converted_file
                },
                _ => final(self).pages@[p.0 as int].state == old(self).pages@[p.0 as int].state,
            },
            final(self).kind == old(self).kind,
            final(self).path == old(self).path,
            final(self).name == old(self).name,
            final(self).id == old(self).id,
            old(self).wf() ==> final(self).wf(),
    {
        self.pages[p.0].do_work(work)
    }

    /// Lets go of what was loaded of a page, and says what to stop.
    pub fn unload(&mut self, p: PI) -> (r: Option<Cancels>)
        requires
            p.0 < old(self).pages@.len(),
        ensures
            final(self).pages@.len() == old(self).pages@.len(),
            forall|i: int|
                0 <= i < final(self).pages@.len() && i != p.0 ==> final(self).pages@[i] == old(
                    self,
                ).pages@[i],
            old(self).pages@[p.0 as int].unloaded_as(final(self).pages@[p.0 as int].state),
            final(self).pages@[p.0 as int].same_file(old(self).pages@[p.0 as int]),
            r == match old(self).pages@[p.0 as int].state {
                PageState::Scanned(s) => Some(s.ongoing()),
                _ => None::<Cancels>,
            },
            final(self).kind == old(self).kind,
            final(self).path == old(self).path,
            final(self).name == old(self).name,
            final(self).id == old(self).id,
            old(self).wf() ==> final(self).wf(),
    {
        self.pages[p.0].unload()
    }

    /// Whether extraction is to be stopped before the archive goes away.
    pub fn must_cancel_extraction(&self) -> (r: bool)
        ensures
            r == (self.kind == Kind::Compressed(true)),
    {
        match self.kind {
            Kind::Compressed(started) => started,
            Kind::Directory | Kind::FileSet | Kind::Broken(_) => false,
        }
    }

    /// The word for what the archive is.
    pub open spec fn kind_word(self) -> Seq<char> {
        match self.kind {
            Kind::Compressed(_) => "archive"@,
            Kind::Directory => "directory"@,
            Kind::FileSet => "fileset"@,
            Kind::Broken(_) => "unknown"@,
        }
    }

    /// The variables for programs that speak of a page and of the archive.
    pub open spec fn env(self, p: Option<PI>) -> Seq<(Seq<char>, Seq<char>)> {
        (match p {
            Some(p) => self.pages@[p.0 as int].env(),
            None => seq![],
        }) + seq![
            ("AWMAN_ARCHIVE"@, self.path@),
            ("AWMAN_ARCHIVE_TYPE"@, self.kind_word()),
            ("AWMAN_PAGE_COUNT"@, decimal(self.pages@.len())),
        ]
    }

    /// The variables for programs that speak of a page and of the archive.
    pub fn get_env(&self, p: Option<PI>) -> (r: Vec<(String, String)>)
        requires
            self.wf(),
            p matches Some(p) ==> p.0 < self.pages@.len(),
        ensures
            env_view(r@) == self.env(p),
    {
        let mut env: Vec<(String, String)> = match p {
            Some(p) => self.pages[p.0].get_env(),
            None => {
                let none: Vec<(String, String)> = Vec::new();
                assert(env_view(none@) =~= seq![]);
                none
            },
        };
        push_env(&mut env, "AWMAN_ARCHIVE", self.path.clone());
        let k: &str = match self.kind {
            Kind::Compressed(_) => "archive",
            Kind::Directory => "directory",
            Kind::FileSet => "fileset",
            Kind::Broken(_) => "unknown",
        };
        push_env(&mut env, "AWMAN_ARCHIVE_TYPE", k.to_owned());
        push_env(&mut env, "AWMAN_PAGE_COUNT", decimal_text(self.pages.len() as u64));
        assert(env_view(env@) =~= self.env(p));
        env
    }

    /// What there is to say of each page.
    pub fn list_pages(&self) -> (r: Vec<PageInfo>)
        requires
            self.wf(),
        ensures
            r@.len() == self.pages@.len(),
            forall|i: int|
                #![trigger r@[i]]
                0 <= i < r@.len() ==> {
                    &&& r@[i].path@ == shown(self.pages@[i].rel_path@)
                    &&& r@[i].index == i + 1
                    &&& match r@[i].abs_path {
                        Some(p) => self.pages@[i].has_file() && p@ == shown(
                            self.pages@[i].absolute_path(),
                        ),
                        None => !self.pages@[i].has_file(),
                    }
                },
    {
        let mut r: Vec<PageInfo> = Vec::new();
        let mut i: usize = 0;
        while i < self.pages.len()
            invariant
                self.wf(),
                i <= self.pages@.len(),
                r@.len() == i,
                forall|i: int|
                    #![trigger r@[i]]
                    0 <= i < r@.len() ==> {
                        &&& r@[i].path@ == shown(self.pages@[i].rel_path@)
                        &&& r@[i].index == i + 1
                        &&& match r@[i].abs_path {
                            Some(p) => self.pages@[i].has_file() && p@ == shown(
                                self.pages@[i].absolute_path(),
                            ),
                            None => !self.pages@[i].has_file(),
                        }
                    },
            decreases self.pages.len() - i,
        {
            assert(self.pages@[i as int].wf());
            r.push(self.pages[i].page_info());
            i += 1;
        }
        r
    }
}

/// Every path that is kept has an extension.
proof fn lemma_page_paths(paths: Seq<Seq<char>>, pixbuf: Seq<String>, i: int)
    requires
        0 <= i < page_paths(paths, pixbuf).len(),
    ensures
        extension(page_paths(paths, pixbuf)[i]) is Some,
{
    let f = |p: Seq<char>| page_path(p, pixbuf);
    paths.lemma_filter_pred(f, i);
    assert(f(page_paths(paths, pixbuf)[i]));
}

/// A directory is opened as such, a page with the directory that it is in, and anything else as a
/// compressed archive.
pub proof fn law_what_paths_are_opened_as(
    d: Seq<char>,
    m: Seq<char>,
    n: Seq<char>,
    is_dir: bool,
    pixbuf: Seq<String>,
    r: OpenAs,
)
    requires
        plain_name(m),
        plain_name(n),
        opened_as(d + seq!['/'] + m + seq!['/'] + n, is_dir, pixbuf, r),
    ensures
        is_dir <==> r is Directory,
        !is_dir && page_path(d + seq!['/'] + m + seq!['/'] + n, pixbuf) ==> (r
            matches OpenAs::PageOf(directory, page) && directory@ == d + seq!['/'] + m && page@
            == n),
        !is_dir && !page_path(d + seq!['/'] + m + seq!['/'] + n, pixbuf) ==> r is Compressed,
{
    law_parents(d, m, n);
    law_names_of_files(d + seq!['/'] + m, n);
}

/// The paths of pages are kept, all of them and no others.
pub proof fn law_pages_are_kept(paths: Seq<Seq<char>>, pixbuf: Seq<String>, p: Seq<char>)
    ensures
        page_paths(paths, pixbuf).contains(p) <==> paths.contains(p) && page_path(p, pixbuf),
        page_paths(paths, pixbuf).len() <= paths.len(),
{
    let keep = |p: Seq<char>| page_path(p, pixbuf);
    let kept = paths.filter(keep);
    if paths.contains(p) && page_path(p, pixbuf) {
        assert(keep(p));
        paths.lemma_filter_contains(keep, paths.index_of(p));
    }
    if kept.contains(p) {
        let i = kept.index_of(p);
        assert(kept[i] == p);
        paths.lemma_filter_pred(keep, i);
        assert(keep(p));
        paths.lemma_filter_contains_rev(keep, p);
    }
    paths.lemma_filter_len(keep);
}

/// A page is extracted to a file that is named by its number, with the extension that it had. No
/// two pages have the same.
pub proof fn law_names_of_extracted_files(
    d: Seq<char>,
    stem: Seq<char>,
    ext: Seq<char>,
    i: usize,
    j: usize,
)
    requires
        !stem.contains('/'),
        !ext.contains('/'),
        !ext.contains('.'),
        stem.len() > 0,
        plain_name(stem + seq!['.'] + ext),
    ensures
        extracted_name(d + seq!['/'] + (stem + seq!['.'] + ext), i as int) == decimal(i as nat)
            + seq!['.'] + ext,
        extracted_name(stem + seq!['.'] + ext, i as int) == extracted_name(
            stem + seq!['.'] + ext,
            j as int,
        ) ==> i == j,
{
    law_extensions(d, stem, ext);
    let a = decimal(i as nat) + seq!['.'] + ext;
    let b = decimal(j as nat) + seq!['.'] + ext;
    if a == b {
        assert(a.len() == b.len());
        lemma_decimal_round_trip(i as nat, usize::MAX as nat);
        lemma_decimal_round_trip(j as nat, usize::MAX as nat);
        assert(a.take(decimal(i as nat).len() as int) =~= decimal(i as nat));
        assert(b.take(decimal(j as nat).len() as int) =~= decimal(j as nat));
    }
}

/// An archive is in the directory above it. A set of files has none above it: it is where its files
/// are.
pub proof fn law_directories_of_archives(
    a: Archive,
    c: ContainingPath,
    d: Seq<char>,
    m: Seq<char>,
    n: Seq<char>,
)
    requires
        plain_name(m),
        plain_name(n),
        a.path@ == d + seq!['/'] + m + seq!['/'] + n,
        a.in_directory(c),
    ensures
        a.kind is FileSet ==> c.directory() == a.path@,
        !(a.kind is FileSet) ==> c.directory() == d + seq!['/'] + m,
{
    law_parents(d, m, n);
}

/// Only archives that are files have others before and after them.
pub proof fn law_archives_with_neighbours(a: Archive)
    ensures
        a.kind is Directory || a.kind is FileSet ==> !a.allows_multiple(),
        a.kind is Compressed || a.kind is Broken ==> a.allows_multiple(),
{
}

/// What is shown of an archive is the page, or what is wrong with the archive. One that could not
/// be opened has no page to speak of.
pub proof fn law_what_is_shown_of_archives(a: Archive, p: Option<PI>, upscaling: bool)
    ensures
        a.kind matches Kind::Broken(e) ==> a.shown(p, upscaling) == DisplayableView::Error(e@)
            && a.info(p) is None,
        !(a.kind is Broken) ==> match p {
            Some(i) => a.shown(p, upscaling) == a.pages@[i.0 as int].shown(upscaling) && (a.info(p)
                matches Some(x) && x.0 == a.pages@[i.0 as int].name@ && x.1
                == a.pages@[i.0 as int].absolute_path()),
            None => a.info(p) is None && a.shown(p, upscaling) == DisplayableView::Error(
                if a.kind is FileSet {
                    "Empty fileset in "@ + shown(a.path@)
                } else {
                    "Found nothing to display in "@ + a.name@
                },
            ),
        },
{
}

/// The words for what archives are.
pub proof fn law_words_for_archives(a: Archive)
    ensures
        a.kind is Compressed ==> a.kind_word() == "archive"@,
        a.kind is Directory ==> a.kind_word() == "directory"@,
        a.kind is FileSet ==> a.kind_word() == "fileset"@,
        a.kind is Broken ==> a.kind_word() == "unknown"@,
{
}

/// Nothing is done for the pages of an archive that could not be opened.
pub proof fn law_no_work_for_broken_archives(a: Archive, p: PI, work: Work)
    ensures
        a.kind is Broken ==> !a.spec_has_work(p, work),
        !(a.kind is Broken) ==> a.spec_has_work(p, work) == a.pages@[p.0 as int].spec_has_work(
            work,
        ),
{
}

/// An archive is called by the name of its file, or by something else if it has none.
pub proof fn law_names_of_archives(d: Seq<char>, n: Seq<char>, other: Seq<char>)
    requires
        plain_name(n),
        unmarked(n),
    ensures
        file_name_or(d + seq!['/'] + n, other) == n,
        file_name_or(seq!['/'], other) == other,
        file_name_or(seq![], other) == other,
{
    law_names_of_files(d, n);
    law_names_are_plain(n);
    law_text_is_shown(n);
}

/// Programs are told where an archive is, what it is and how many pages it has, behind what they
/// are told of the page.
pub proof fn law_variables_of_archives(a: Archive, p: Option<PI>)
    ensures
        ({
            let v = a.env(p);
            let n = v.len() - 3;
            &&& v[n] == ("AWMAN_ARCHIVE"@, a.path@)
            &&& v[n + 1] == (
                "AWMAN_ARCHIVE_TYPE"@,
                match a.kind {
                    Kind::Compressed(_) => "archive"@,
                    Kind::Directory => "directory"@,
                    Kind::FileSet => "fileset"@,
                    Kind::Broken(_) => "unknown"@,
                },
            )
            &&& v[n + 2] == ("AWMAN_PAGE_COUNT"@, decimal(a.pages@.len()))
            &&& p is None ==> n == 0
            &&& p matches Some(i) ==> v.take(n) == a.pages@[i.0 as int].env()
        }),
{
    let v = a.env(p);
    let n = v.len() - 3;
    if let Some(i) = p {
        assert(v.take(n) =~= a.pages@[i.0 as int].env());
    }
}

/// The pages of a directory lie in it under their names, and wait to be looked at.
pub proof fn law_pages_of_directories(p: Page, path: Seq<char>, name: Seq<char>, i: int)
    requires
        is_directory_page(p, path, name, i),
    ensures
        p.absolute_path() == inside(path, name),
        p.has_file(),
        p.rel_path@ == name,
        p.index == i,
        unmarked(name) ==> p.name@ == name,
{
    if unmarked(name) {
        law_text_is_shown(name);
    }
}

/// The pages of a compressed archive are to be extracted to files under their numbers.
pub proof fn law_pages_of_compressed_archives(
    p: Page,
    temp_dir: Seq<char>,
    rel_path: Seq<char>,
    name: Seq<char>,
    i: int,
)
    requires
        is_compressed_page(p, temp_dir, rel_path, name, i),
    ensures
        p.absolute_path() == inside(temp_dir, extracted_name(rel_path, i)),
        !p.has_file(),
        p.rel_path@ == rel_path,
        p.name@ == name,
        p.index == i,
{
}

/// The pages of a set of files are those files.
pub proof fn law_pages_of_sets(p: Page, path: Seq<char>, name: Seq<char>, i: int)
    requires
        is_set_page(p, path, name, i),
    ensures
        p.absolute_path() == path,
        p.has_file(),
        p.name@ == name,
        p.index == i,
        unmarked(name) ==> p.rel_path@ == name,
{
    if unmarked(name) {
        law_typed_is_itself(name);
    }
}

} // verus!

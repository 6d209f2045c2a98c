//! Kinds of files, told by the extensions of their names.
use vstd::prelude::*;

use crate::path::{extension, extension_of};
use crate::text::{chars_of, equal_ignoring_case, same_ignoring_case, same_text};

verus! {

/// The extensions of images that the image crate reads.
pub open spec fn image_crate_names() -> Seq<&'static str> {
    seq![
        "jpg", "jpeg", "png", "bmp", "gif", "avif", "ico", "apng", "pbm", "pgm", "ppm", "dds", "exr",
        "tga", "tif", "tiff", "ff", "qoi", "webp", "hdr",
    ]
}

/// The extensions of videos.
pub open spec fn video_names() -> Seq<&'static str> {
    seq!["webm"]
}

/// The extensions of archives.
pub open spec fn archive_names() -> Seq<&'static str> {
    seq![
        "zip", "cbz", "rar", "cbr", "7z", "cb7z", "tar", "pax", "gz", "bz2", "zst", "lz4", "xz",
    ]
}

/// The extensions of images that are read in some other way.
pub open spec fn other_image_names() -> Seq<&'static str> {
    seq!["webp", "jxl", "apng"]
}

/// Whether a text is one of several in any case.
pub open spec fn one_of(e: Seq<char>, names: Seq<&'static str>) -> bool {
    exists|i: int| 0 <= i < names.len() && equal_ignoring_case(e, (#[trigger] names[i])@)
}

/// Whether a text is one of several in any case.
pub open spec fn one_of_strings(e: Seq<char>, names: Seq<String>) -> bool {
    exists|i: int| 0 <= i < names.len() && equal_ignoring_case(e, (#[trigger] names[i])@)
}

/// Whether a path has an extension that is one of several in any case.
pub open spec fn has_extension(path: Seq<char>, names: Seq<&'static str>) -> bool {
    match extension(path) {
        Some(e) => one_of(e, names),
        None => false,
    }
}

/// Whether a path has an extension that is one of several in any case.
pub open spec fn has_string_extension(path: Seq<char>, names: Seq<String>) -> bool {
    match extension(path) {
        Some(e) => one_of_strings(e, names),
        None => false,
    }
}

fn is_one_of(e: &[char], names: &Vec<&'static str>) -> (r: bool)
    ensures
        r == one_of(e@, names@),
{
    let mut i: usize = 0;
    while i < names.len()
        invariant
            i <= names@.len(),
            forall|j: int| 0 <= j < i ==> !equal_ignoring_case(e@, (#[trigger] names@[j])@),
        decreases names.len() - i,
    {
        let n = chars_of(names[i]);
        if same_ignoring_case(e, n.as_slice()) {
            return true;
        }
        i += 1;
    }
    false
}

fn is_one_of_strings(e: &[char], names: &Vec<String>) -> (r: bool)
    ensures
        r == one_of_strings(e@, names@),
{
    let mut i: usize = 0;
    while i < names.len()
        invariant
            i <= names@.len(),
            forall|j: int| 0 <= j < i ==> !equal_ignoring_case(e@, (#[trigger] names@[j])@),
        decreases names.len() - i,
    {
        let n = chars_of(names[i].as_str());
        if same_ignoring_case(e, n.as_slice()) {
            return true;
        }
        i += 1;
    }
    false
}

fn path_has_extension(path: &str, names: &Vec<&'static str>) -> (r: bool)
    ensures
        r == has_extension(path@, names@),
{
    let v = chars_of(path);
    match extension_of(v.as_slice()) {
        Some(e) => is_one_of(e, names),
        None => false,
    }
}

fn path_has_string_extension(path: &str, names: &Vec<String>) -> (r: bool)
    ensures
        r == has_string_extension(path@, names@),
{
    let v = chars_of(path);
    match extension_of(v.as_slice()) {
        Some(e) => is_one_of_strings(e, names),
        None => false,
    }
}

fn image_crate_extensions() -> (v: Vec<&'static str>)
    ensures
        v@ == image_crate_names(),
{
    let v: Vec<&'static str> = vec![
        "jpg", "jpeg", "png", "bmp", "gif", "avif", "ico", "apng", "pbm", "pgm", "ppm", "dds", "exr",
        "tga", "tif", "tiff", "ff", "qoi", "webp", "hdr",
    ];
    assert(v@ =~= image_crate_names());
    v
}

fn video_extensions() -> (v: Vec<&'static str>)
    ensures
        v@ == video_names(),
{
    let v: Vec<&'static str> = vec!["webm"];
    assert(v@ =~= video_names());
    v
}

fn archive_extensions() -> (v: Vec<&'static str>)
    ensures
        v@ == archive_names(),
{
    let v: Vec<&'static str> = vec![
        "zip", "cbz", "rar", "cbr", "7z", "cb7z", "tar", "pax", "gz", "bz2", "zst", "lz4", "xz",
    ];
    assert(v@ =~= archive_names());
    v
}

/// Whether a path is that of a page: an image, an animation or a video. `pixbuf` holds the
/// extensions that gdk-pixbuf reads.
pub open spec fn page_path(path: Seq<char>, pixbuf: Seq<String>) -> bool {
    ||| has_extension(path, image_crate_names())
    ||| has_string_extension(path, pixbuf)
    ||| has_extension(path, other_image_names())
    ||| has_extension(path, video_names())
}

/// Whether a path is that of a page.
pub fn is_supported_page_extension(path: &str, pixbuf: &Vec<String>) -> (r: bool)
    ensures
        r == page_path(path@, pixbuf@),
{
    let others: Vec<&'static str> = vec!["webp", "jxl", "apng"];
    assert(others@ =~= other_image_names());
    is_image_crate_supported(path) || is_pixbuf_extension(path, pixbuf) || path_has_extension(
        path,
        &others,
    ) || is_video_extension(path)
}

pub fn is_gif(path: &str) -> (r: bool)
    ensures
        r == has_extension(path@, seq!["gif"]),
{
    let v: Vec<&'static str> = vec!["gif"];
    assert(v@ =~= seq!["gif"]);
    path_has_extension(path, &v)
}

pub fn is_png(path: &str) -> (r: bool)
    ensures
        r == has_extension(path@, seq!["png", "apng"]),
{
    let v: Vec<&'static str> = vec!["png", "apng"];
    assert(v@ =~= seq!["png", "apng"]);
    path_has_extension(path, &v)
}

pub fn is_webp(path: &str) -> (r: bool)
    ensures
        r == has_extension(path@, seq!["webp"]),
{
    let v: Vec<&'static str> = vec!["webp"];
    assert(v@ =~= seq!["webp"]);
    path_has_extension(path, &v)
}

pub fn is_jxl(path: &str) -> (r: bool)
    ensures
        r == has_extension(path@, seq!["jxl"]),
{
    let v: Vec<&'static str> = vec!["jxl"];
    assert(v@ =~= seq!["jxl"]);
    path_has_extension(path, &v)
}

/// Whether the image crate reads the file.
pub fn is_image_crate_supported(path: &str) -> (r: bool)
    ensures
        r == has_extension(path@, image_crate_names()),
{
    path_has_extension(path, &image_crate_extensions())
}

pub fn is_video_extension(path: &str) -> (r: bool)
    ensures
        r == has_extension(path@, video_names()),
{
    path_has_extension(path, &video_extensions())
}

/// Whether gdk-pixbuf, which reads the given extensions, reads the file.
pub fn is_pixbuf_extension(path: &str, pixbuf: &Vec<String>) -> (r: bool)
    ensures
        r == has_string_extension(path@, pixbuf@),
{
    path_has_string_extension(path, pixbuf)
}

/// Whether a path is that of an archive. Looking into each file would be far too slow.
pub fn is_archive_path(path: &str) -> (r: bool)
    ensures
        r == has_extension(path@, archive_names()),
{
    path_has_extension(path, &archive_extensions())
}

/// Whether an archive is one that the external extractor reads.
pub fn is_rar_path(path: &str) -> (r: bool)
    ensures
        r == has_extension(path@, seq!["rar", "cbr"]),
{
    let v: Vec<&'static str> = vec!["rar", "cbr"];
    assert(v@ =~= seq!["rar", "cbr"]);
    path_has_extension(path, &v)
}

/// Whether an extension of gdk-pixbuf is used: it is one for a single file name suffix, and not
/// for a format that is read in another way.
pub open spec fn usable_extension(e: Seq<char>) -> bool {
    !e.contains('.') && e != "jxl"@
}

/// The extensions of gdk-pixbuf that are used, out of all that it has.
pub fn usable_pixbuf_extensions(all: Vec<String>) -> (r: Vec<String>)
    ensures
        r@ == all@.filter(|e: String| usable_extension(e@)),
{
    let ghost used = |e: String| usable_extension(e@);
    let mut r: Vec<String> = Vec::new();
    let mut i: usize = 0;
    while i < all.len()
        invariant
            i <= all@.len(),
            used == (|e: String| usable_extension(e@)),
            r@ == all@.take(i as int).filter(used),
        decreases all.len() - i,
    {
        let v = chars_of(all[i].as_str());
        let dot: usize = crate::text::position_of(v.as_slice(), '.');
        proof {
            reveal(Seq::filter);
            assert(all@.take(i + 1).drop_last() =~= all@.take(i as int));
            crate::text::lemma_position(v@, '.');
        }
        if dot == v.len() && !same_text(all[i].as_str(), "jxl") {
            r.push(all[i].clone());
        }
        i += 1;
    }
    assert(all@.take(i as int) =~= all@);
    r
}

/// Texts with a separator between each two.
pub open spec fn joined(parts: Seq<Seq<char>>, separator: Seq<char>) -> Seq<char>
    decreases parts.len(),
{
    if parts.len() == 0 {
        seq![]
    } else if parts.len() == 1 {
        parts[0]
    } else {
        joined(parts.drop_last(), separator) + separator + parts.last()
    }
}

/// Puts texts together with a separator between each two.
pub fn join(parts: &Vec<String>, separator: &str) -> (r: String)
    ensures
        r@ == joined(crate::path::texts(parts@), separator@),
{
    let ghost all = crate::path::texts(parts@);
    let mut r = String::new();
    let mut i: usize = 0;
    assert(r@ =~= joined(all.take(0), separator@));
    while i < parts.len()
        invariant
            i <= parts@.len(),
            all == crate::path::texts(parts@),
            r@ == joined(all.take(i as int), separator@),
        decreases parts.len() - i,
    {
        proof {
            assert(all.take(i + 1).drop_last() =~= all.take(i as int));
            assert(all.take(i + 1).last() == parts@[i as int]@);
        }
        if i > 0 {
            r.append(separator);
        }
        r.append(parts[i].as_str());
        i += 1;
        assert(r@ =~= joined(all.take(i as int), separator@));
    }
    assert(all.take(i as int) =~= all);
    r
}

/// Whether a name is already among others.
fn listed(names: &Vec<String>, name: &str) -> (r: bool)
    ensures
        r == crate::path::texts(names@).contains(name@),
{
    let mut i: usize = 0;
    while i < names.len()
        invariant
            i <= names@.len(),
            forall|j: int| 0 <= j < i ==> (#[trigger] names@[j])@ != name@,
        decreases names.len() - i,
    {
        if same_text(names[i].as_str(), name) {
            assert(crate::path::texts(names@)[i as int] == name@);
            return true;
        }
        i += 1;
    }
    assert forall|j: int| 0 <= j < names@.len() implies crate::path::texts(names@)[j] != name@ by {
        assert(names@[j]@ != name@);
    }
    false
}

/// A list of names with another one behind, unless it is among them.
pub open spec fn with_name(names: Seq<Seq<char>>, name: Seq<char>) -> Seq<Seq<char>> {
    if names.contains(name) {
        names
    } else {
        names.push(name)
    }
}

/// A list of names with others behind, each once.
pub open spec fn with_names(names: Seq<Seq<char>>, more: Seq<Seq<char>>) -> Seq<Seq<char>>
    decreases more.len(),
{
    if more.len() == 0 {
        names
    } else {
        with_name(with_names(names, more.drop_last()), more.last())
    }
}

/// The views of string slices.
pub open spec fn slice_texts(v: Seq<&'static str>) -> Seq<Seq<char>> {
    v.map_values(|s: &'static str| s@)
}

/// The extensions of images, those of the image crate first.
pub fn image_formats(pixbuf: &Vec<String>) -> (r: Vec<String>)
    ensures
        crate::path::texts(r@) == with_name(
            with_names(slice_texts(image_crate_names()), crate::path::texts(pixbuf@)),
            "jxl"@,
        ),
{
    let mut r: Vec<String> = owned(&image_crate_extensions());
    let ghost base = slice_texts(image_crate_names());
    let ghost all = crate::path::texts(pixbuf@);
    let mut i: usize = 0;
    assert(all.take(0) =~= Seq::<Seq<char>>::empty());
    while i < pixbuf.len()
        invariant
            i <= pixbuf@.len(),
            all == crate::path::texts(pixbuf@),
            crate::path::texts(r@) == with_names(base, all.take(i as int)),
        decreases pixbuf.len() - i,
    {
        proof {
            assert(all.take(i + 1).drop_last() =~= all.take(i as int));
            assert(all.take(i + 1).last() == pixbuf@[i as int]@);
        }
        push_name(&mut r, pixbuf[i].as_str());
        i += 1;
    }
    assert(all.take(i as int) =~= all);
    push_name(&mut r, "jxl");
    r
}

/// Appends a name to others, unless it is among them.
fn push_name(names: &mut Vec<String>, name: &str)
    ensures
        crate::path::texts(final(names)@) == with_name(crate::path::texts(old(names)@), name@),
{
    if !listed(names, name) {
        names.push(name.to_owned());
        assert(crate::path::texts(names@) =~= crate::path::texts(old(names)@).push(name@));
    }
}

/// The strings of string slices.
fn owned(v: &Vec<&'static str>) -> (r: Vec<String>)
    ensures
        crate::path::texts(r@) == slice_texts(v@),
{
    let mut r: Vec<String> = Vec::new();
    let mut i: usize = 0;
    while i < v.len()
        invariant
            i <= v@.len(),
            r@.len() == i,
            forall|j: int| 0 <= j < i ==> (#[trigger] r@[j])@ == v@[j]@,
        decreases v.len() - i,
    {
        r.push(v[i].to_owned());
        i += 1;
    }
    assert(crate::path::texts(r@) =~= slice_texts(v@));
    r
}

/// The lines that tell the user what can be shown.
pub fn format_lines(pixbuf: &Vec<String>) -> (r: (String, String, String, String))
    ensures
        r.0@ == "Supported image formats: "@ + joined(
            with_name(
                with_names(slice_texts(image_crate_names()), crate::path::texts(pixbuf@)),
                "jxl"@,
            ),
            ", "@,
        ),
        r.1@ == "Supported animated image formats: "@ + joined(
            slice_texts(seq!["gif", "png", "apng"]),
            ", "@,
        ),
        r.2@ == "Supported video formats: "@ + joined(slice_texts(video_names()), ", "@),
        r.3@ == "Supported archive formats: "@ + joined(slice_texts(archive_names()), ", "@),
{
    let animated: Vec<&'static str> = vec!["gif", "png", "apng"];
    assert(animated@ =~= seq!["gif", "png", "apng"]);
    (
        "Supported image formats: ".to_owned().concat(join(&image_formats(pixbuf), ", ").as_str()),
        "Supported animated image formats: ".to_owned().concat(
            join(&owned(&animated), ", ").as_str(),
        ),
        "Supported video formats: ".to_owned().concat(
            join(&owned(&video_extensions()), ", ").as_str(),
        ),
        "Supported archive formats: ".to_owned().concat(
            join(&owned(&archive_extensions()), ", ").as_str(),
        ),
    )
}

/// Files are pages by their extensions, in any case: those of images that are read in one way or another,
/// and those of videos.
pub proof fn law_extensions_of_pages(path: Seq<char>, pixbuf: Seq<String>, e: Seq<char>)
    requires
        extension(path) == Some(e),
        equal_ignoring_case(e, "jpg"@)
            || equal_ignoring_case(e, "jpeg"@)
            || equal_ignoring_case(e, "png"@)
            || equal_ignoring_case(e, "bmp"@)
            || equal_ignoring_case(e, "gif"@)
            || equal_ignoring_case(e, "avif"@)
            || equal_ignoring_case(e, "ico"@)
            || equal_ignoring_case(e, "apng"@)
            || equal_ignoring_case(e, "pbm"@)
            || equal_ignoring_case(e, "pgm"@)
            || equal_ignoring_case(e, "ppm"@)
            || equal_ignoring_case(e, "dds"@)
            || equal_ignoring_case(e, "exr"@)
            || equal_ignoring_case(e, "tga"@)
            || equal_ignoring_case(e, "tif"@)
            || equal_ignoring_case(e, "tiff"@)
            || equal_ignoring_case(e, "ff"@)
            || equal_ignoring_case(e, "qoi"@)
            || equal_ignoring_case(e, "webp"@)
            || equal_ignoring_case(e, "hdr"@)
            || equal_ignoring_case(e, "jxl"@) || equal_ignoring_case(e, "webm"@) || exists|i: int|
            0 <= i < pixbuf.len() && equal_ignoring_case(e, (#[trigger] pixbuf[i])@),
    ensures
        page_path(path, pixbuf),
{
    let names = image_crate_names();
    assert(names[0]@ == "jpg"@);
    assert(names[1]@ == "jpeg"@);
    assert(names[2]@ == "png"@);
    assert(names[3]@ == "bmp"@);
    assert(names[4]@ == "gif"@);
    assert(names[5]@ == "avif"@);
    assert(names[6]@ == "ico"@);
    assert(names[7]@ == "apng"@);
    assert(names[8]@ == "pbm"@);
    assert(names[9]@ == "pgm"@);
    assert(names[10]@ == "ppm"@);
    assert(names[11]@ == "dds"@);
    assert(names[12]@ == "exr"@);
    assert(names[13]@ == "tga"@);
    assert(names[14]@ == "tif"@);
    assert(names[15]@ == "tiff"@);
    assert(names[16]@ == "ff"@);
    assert(names[17]@ == "qoi"@);
    assert(names[18]@ == "webp"@);
    assert(names[19]@ == "hdr"@);
    let others = other_image_names();
    assert(others[1]@ == "jxl"@);
    let videos = video_names();
    assert(videos[0]@ == "webm"@);
}

/// Files are archives by their extensions, in any case.
pub proof fn law_extensions_of_archives(path: Seq<char>, e: Seq<char>)
    requires
        extension(path) == Some(e),
    ensures
        has_extension(path, archive_names()) <==> equal_ignoring_case(e, "zip"@)
            || equal_ignoring_case(e, "cbz"@)
            || equal_ignoring_case(e, "rar"@)
            || equal_ignoring_case(e, "cbr"@)
            || equal_ignoring_case(e, "7z"@)
            || equal_ignoring_case(e, "cb7z"@)
            || equal_ignoring_case(e, "tar"@)
            || equal_ignoring_case(e, "pax"@)
            || equal_ignoring_case(e, "gz"@)
            || equal_ignoring_case(e, "bz2"@)
            || equal_ignoring_case(e, "zst"@)
            || equal_ignoring_case(e, "lz4"@)
            || equal_ignoring_case(e, "xz"@),
{
    let names = archive_names();
    assert(names[0]@ == "zip"@);
    assert(names[1]@ == "cbz"@);
    assert(names[2]@ == "rar"@);
    assert(names[3]@ == "cbr"@);
    assert(names[4]@ == "7z"@);
    assert(names[5]@ == "cb7z"@);
    assert(names[6]@ == "tar"@);
    assert(names[7]@ == "pax"@);
    assert(names[8]@ == "gz"@);
    assert(names[9]@ == "bz2"@);
    assert(names[10]@ == "zst"@);
    assert(names[11]@ == "lz4"@);
    assert(names[12]@ == "xz"@);
    if has_extension(path, archive_names()) {
        let i = choose|i: int|
            0 <= i < names.len() && equal_ignoring_case(e, (#[trigger] names[i])@);
        assert(equal_ignoring_case(e, names[i]@));
    }
}

/// A file without an extension is neither a page nor an archive.
pub proof fn law_no_extension(path: Seq<char>, pixbuf: Seq<String>)
    requires
        extension(path) is None,
    ensures
        !page_path(path, pixbuf),
        !has_extension(path, archive_names()),
{
}

/// Texts that are put together stand with a separator between each two.
pub proof fn law_joined(parts: Seq<Seq<char>>, last: Seq<char>, separator: Seq<char>)
    ensures
        joined(seq![], separator) == Seq::<char>::empty(),
        joined(seq![last], separator) == last,
        parts.len() > 0 ==> joined(parts.push(last), separator) == joined(parts, separator)
            + separator + last,
{
    assert(parts.push(last).drop_last() =~= parts);
}

/// A list of names with others behind has all of them, each once.
pub proof fn law_each_name_once(names: Seq<Seq<char>>, more: Seq<Seq<char>>, name: Seq<char>)
    ensures
        with_names(names, more).contains(name) <==> names.contains(name) || more.contains(name),
        names.no_duplicates() ==> with_names(names, more).no_duplicates(),
    decreases more.len(),
{
    if more.len() > 0 {
        let rest = more.drop_last();
        law_each_name_once(names, rest, name);
        law_each_name_once(names, rest, more.last());
        let v = with_names(names, rest);
        let last = more.last();
        assert(more =~= rest.push(last));
        if rest.contains(name) {
            assert(more[rest.index_of(name)] == name);
        }
        if more.contains(name) && more.index_of(name) < rest.len() {
            assert(rest[more.index_of(name)] == name);
        }
        assert(more[more.len() - 1] == last);
        if !v.contains(last) {
            let w = v.push(last);
            if v.contains(name) {
                assert(w[v.index_of(name)] == name);
            }
            assert(w[v.len() as int] == last);
            if w.contains(name) && w.index_of(name) < v.len() {
                assert(v[w.index_of(name)] == name);
            }
            if names.no_duplicates() {
                assert forall|i: int, j: int| 0 <= i < w.len() && 0 <= j < w.len() && i != j implies w[i]
                    != w[j] by {
                    if i < v.len() {
                        assert(w[i] == v[i]);
                    }
                    if j < v.len() {
                        assert(w[j] == v[j]);
                    }
                }
            }
        }
    }
}

/// Extensions of gdk-pixbuf are used unless they are made of several, or are those of JPEG XL.
pub proof fn law_extensions_of_pixbuf(e: Seq<char>, a: Seq<char>, b: Seq<char>)
    ensures
        !usable_extension(a + seq!['.'] + b),
        !usable_extension("jxl"@),
        !e.contains('.') && e != "jxl"@ ==> usable_extension(e),
{
    let s = a + seq!['.'] + b;
    assert(s[a.len() as int] == '.');
}

} // verus!

//! Reading archives with the unrar program.
use vstd::prelude::*;

use crate::number::{
    decimal, lemma_decimal_round_trip, parse_decimal, parse_usize, ParseNumberError,
};
use crate::path::texts;
use crate::pattern::{
    file_line_source, first_match, group_inside, group_of, group_text, Group, Pattern,
};
use crate::text::{chars_of, string_of};

verus! {

/// A file in a listing, or why its size cannot be read.
pub type Listed = Result<(Seq<char>, nat), ParseNumberError>;

/// The file that a line of a listing is about, by the groups of the pattern in it.
pub open spec fn listed(groups: Seq<Group>, line: Seq<char>) -> Option<Listed> {
    match (group_text(groups, 1, line), group_text(groups, 2, line)) {
        (Some(size), Some(name)) => match parse_decimal(size, usize::MAX as nat) {
            Ok(n) => Some(Ok((name, n))),
            Err(e) => Some(Err(e)),
        },
        _ => None,
    }
}

/// The file that a line of a listing is about, if it is about one.
pub open spec fn line_file(line: Seq<char>) -> Option<Listed> {
    match first_match(file_line_source(), line) {
        Some(groups) => listed(groups, line),
        None => None,
    }
}

/// The files of a listing, or what is wrong with the first size that cannot be read.
pub open spec fn files_in(lines: Seq<Seq<char>>) -> Result<
    Seq<(Seq<char>, nat)>,
    ParseNumberError,
>
    decreases lines.len(),
{
    if lines.len() == 0 {
        Ok(seq![])
    } else {
        match files_in(lines.drop_last()) {
            Err(e) => Err(e),
            Ok(files) => match line_file(lines.last()) {
                None => Ok(files),
                Some(Ok(f)) => Ok(files.push(f)),
                Some(Err(e)) => Err(e),
            },
        }
    }
}

/// What some files of a listing are.
pub open spec fn file_views(v: Seq<(String, usize)>) -> Seq<(Seq<char>, nat)> {
    v.map_values(|f: (String, usize)| (f.0@, f.1 as nat))
}

/// The file that a line of a listing is about, by the groups of the pattern in it.
pub fn read_line(groups: &Vec<Group>, line: &[char]) -> (r: Result<
    Option<(String, usize)>,
    ParseNumberError,
>)
    requires
        forall|j: int| 0 <= j < groups@.len() ==> group_inside(#[trigger] groups@[j], line@),
    ensures
        match listed(groups@, line@) {
            None => r matches Ok(o) && o is None,
            Some(Ok(f)) => r matches Ok(Some(x)) && x.0@ == f.0 && x.1 == f.1,
            Some(Err(e)) => r == Err::<Option<(String, usize)>, ParseNumberError>(e),
        },
{
    match (group_of(groups.as_slice(), 1, line), group_of(groups.as_slice(), 2, line)) {
        (Some(size), Some(name)) => match parse_usize(size) {
            Ok(n) => Ok(Some((string_of(name), n))),
            Err(e) => Err(e),
        },
        _ => Ok(None),
    }
}

/// The files of a listing with their sizes, in the order of the archive.
pub fn read_files(pattern: &Pattern, lines: &Vec<String>) -> (r: Result<
    Vec<(String, usize)>,
    ParseNumberError,
>)
    requires
        pattern.source() == file_line_source(),
    ensures
        match files_in(texts(lines@)) {
            Ok(files) => r matches Ok(v) && file_views(v@) == files,
            Err(e) => r matches Err(x) && x == e,
        },
{
    let mut files: Vec<(String, usize)> = Vec::new();
    let ghost all = texts(lines@);
    let mut i: usize = 0;
    assert(file_views(files@) =~= seq![]);
    assert(all.take(0) =~= seq![]);
    while i < lines.len()
        invariant
            i <= lines@.len(),
            all == texts(lines@),
            pattern.source() == file_line_source(),
            files_in(all.take(i as int)) == Ok::<Seq<(Seq<char>, nat)>, ParseNumberError>(
                file_views(files@),
            ),
        decreases lines.len() - i,
    {
        let line = chars_of(lines[i].as_str());
        proof {
            assert(all[i as int] == line@);
            assert(all.take(i + 1).drop_last() =~= all.take(i as int));
            assert(all.take(i + 1).last() == line@);
        }
        let groups = pattern.leftmost(lines[i].as_str());
        if let Some(groups) = groups {
            match read_line(&groups, line.as_slice()) {
                Ok(Some(f)) => {
                    let ghost before = file_views(files@);
                    let ghost added = (f.0@, f.1 as nat);
                    files.push(f);
                    assert(file_views(files@) =~= before.push(added));
                },
                Ok(None) => {},
                Err(e) => {
                    proof {
                        lemma_error_stays(all, i + 1);
                    }
                    return Err(e);
                },
            }
        }
        i += 1;
    }
    assert(all.take(i as int) =~= all);
    Ok(files)
}

proof fn lemma_error_stays(lines: Seq<Seq<char>>, n: int)
    requires
        0 <= n <= lines.len(),
        files_in(lines.take(n)) is Err,
    ensures
        files_in(lines) == files_in(lines.take(n)),
    decreases lines.len() - n,
{
    if n == lines.len() {
        assert(lines.take(n) =~= lines);
    } else {
        assert(lines.take(n + 1).drop_last() =~= lines.take(n));
        lemma_error_stays(lines, n + 1);
    }
}

fn push_text(v: &mut Vec<String>, s: &str)
    ensures
        texts(final(v)@) == texts(old(v)@).push(s@),
{
    let ghost before = texts(v@);
    v.push(s.to_owned());
    assert(texts(v@) =~= before.push(s@));
}

/// What unrar is told to list the files of an archive.
pub fn list_arguments(source: &str) -> (r: Vec<String>)
    ensures
        texts(r@) == seq!["l"@, "--"@, source@],
{
    let mut v: Vec<String> = Vec::new();
    push_text(&mut v, "l");
    push_text(&mut v, "--");
    push_text(&mut v, source);
    assert(texts(v@) =~= seq!["l"@, "--"@, source@]);
    v
}

/// What unrar is told to write out the files of an archive, or only one of them.
pub fn extract_arguments(source: &str, only: Option<&str>) -> (r: Vec<String>)
    ensures
        texts(r@) == match only {
            Some(p) => seq!["p"@, "-inul"@, "--"@, source@, p@],
            None => seq!["p"@, "-inul"@, "--"@, source@],
        },
{
    let mut v: Vec<String> = Vec::new();
    push_text(&mut v, "p");
    push_text(&mut v, "-inul");
    push_text(&mut v, "--");
    push_text(&mut v, source);
    assert(texts(v@) =~= seq!["p"@, "-inul"@, "--"@, source@]);
    if let Some(p) = only {
        push_text(&mut v, p);
        assert(texts(v@) =~= seq!["p"@, "-inul"@, "--"@, source@, p@]);
    }
    v
}

/// The files of a listing come in the order of its lines. Lines that are about no file add none, and
/// the first size that cannot be read is what the listing comes to, whatever follows it.
pub proof fn law_files_in_order(lines: Seq<Seq<char>>, line: Seq<char>)
    ensures
        files_in(seq![]) == Ok::<Seq<(Seq<char>, nat)>, ParseNumberError>(seq![]),
        files_in(lines) is Err ==> files_in(lines.push(line)) == files_in(lines),
        files_in(lines) matches Ok(files) ==> files_in(lines.push(line)) == match line_file(line) {
            None => Ok(files),
            Some(Ok(f)) => Ok(files.push(f)),
            Some(Err(e)) => Err::<Seq<(Seq<char>, nat)>, ParseNumberError>(e),
        },
{
    assert(lines.push(line).drop_last() =~= lines);
}

/// A line is about the file that its second group names, with the size that its first one gives.
pub proof fn law_files_of_lines(
    groups: Seq<Group>,
    line: Seq<char>,
    a: usize,
    b: usize,
    c: usize,
    d: usize,
    n: nat,
)
    requires
        groups.len() >= 3,
        groups[1] == Some((a, b)),
        groups[2] == Some((c, d)),
        n <= usize::MAX,
        line.subrange(a as int, b as int) == decimal(n),
    ensures
        listed(groups, line) == Some::<Listed>(Ok((line.subrange(c as int, d as int), n))),
{
    lemma_decimal_round_trip(n, usize::MAX as nat);
}

} // verus!

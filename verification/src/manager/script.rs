//! Programs that are run on behalf of the user, and the commands that they ask for.
use vstd::prelude::*;

use crate::com::res::lemma_position_skips;
use crate::path::texts;
use crate::text::{chars_of, position, position_of, string_of, trim, trimmed};

verus! {

/// A line without the carriage return that is part of its ending.
pub open spec fn without_return(s: Seq<char>) -> Seq<char> {
    if s.len() > 0 && s.last() == '\r' {
        s.drop_last()
    } else {
        s
    }
}

/// The lines of a text. The ending of the last one may be missing.
pub open spec fn lines_of(s: Seq<char>) -> Seq<Seq<char>>
    decreases s.len(),
    via lines_of_decreases
{
    if s.len() == 0 {
        seq![]
    } else {
        let end = position(s, '\n') as int;
        if end >= s.len() {
            seq![s]
        } else {
            seq![without_return(s.take(end))] + lines_of(s.skip(end + 1))
        }
    }
}

#[via_fn]
proof fn lines_of_decreases(s: Seq<char>) {
}

/// The lines of a text.
pub fn split_lines(s: &[char]) -> (r: Vec<String>)
    ensures
        texts(r@) == lines_of(s@),
{
    let mut r: Vec<String> = Vec::new();
    let mut rest: &[char] = s;
    assert(texts(r@) + lines_of(rest@) =~= lines_of(s@));
    while rest.len() > 0
        invariant
            texts(r@) + lines_of(rest@) == lines_of(s@),
        decreases rest@.len(),
    {
        let ghost before = texts(r@);
        let ghost was = rest@;
        let end: usize = position_of(rest, '\n');
        if end >= rest.len() {
            r.push(string_of(rest));
            proof {
                assert(texts(r@) =~= before + seq![was]);
                assert(lines_of(was) == seq![was]);
            }
            return r;
        }
        let mut line = vstd::slice::slice_subrange(rest, 0, end);
        assert(line@ =~= was.take(end as int));
        if line.len() > 0 && line[line.len() - 1] == '\r' {
            line = vstd::slice::slice_subrange(line, 0, line.len() - 1);
            assert(line@ =~= was.take(end as int).drop_last());
        }
        r.push(string_of(line));
        rest = vstd::slice::slice_subrange(rest, end + 1, rest.len());
        proof {
            assert(rest@ =~= was.skip(end + 1));
            assert(texts(r@) =~= before.push(line@));
            assert(before + (seq![line@] + lines_of(rest@)) =~= texts(r@) + lines_of(rest@));
        }
    }
    assert(texts(r@) + lines_of(rest@) =~= texts(r@));
    r
}

/// How a program ended.
#[derive(Debug)]
pub enum ProgramEnd {
    /// It was successful, and wrote something.
    Success(String),
    /// It was not, by the words for how it ended, and wrote something to the usual place and to
    /// the one for errors.
    Failure { status: String, stdout: String, stderr: String },
    /// It could not be started.
    NotStarted(String),
}

/// What to do after a program ended.
#[derive(Debug)]
pub enum AfterProgram {
    /// Run some commands.
    Run(Vec<String>),
    /// Answer with an object of these names and texts.
    Report(Vec<(String, String)>),
}

/// What an answer is.
pub open spec fn fields(v: Seq<(String, String)>) -> Seq<(Seq<char>, Seq<char>)> {
    v.map_values(|f: (String, String)| (f.0@, f.1@))
}

/// The words for a program that was not successful.
pub open spec fn failure_text(program: Seq<char>, status: Seq<char>) -> Seq<char> {
    "Executable "@ + program + " exited with error code "@ + status
}

/// The words for a program that could not be started.
pub open spec fn not_started_text(program: Seq<char>, error: Seq<char>) -> Seq<char> {
    "Executable "@ + program + " failed to start with error "@ + error
}

fn push_field(v: &mut Vec<(String, String)>, name: &str, value: String)
    ensures
        fields(final(v)@) == fields(old(v)@).push((name@, value@)),
{
    let ghost before = fields(v@);
    let ghost added = (name@, value@);
    v.push((name.to_owned(), value));
    assert(fields(v@) =~= before.push(added));
}

/// What to do after a program ended. Only one that is a script asks for commands: a line each of
/// what it wrote.
pub fn after_program(program: &str, script: bool, end: ProgramEnd) -> (r: AfterProgram)
    ensures
        match end {
            ProgramEnd::Success(out) => r matches AfterProgram::Run(v) && texts(v@) == if script {
                lines_of(trim(out@))
            } else {
                seq![]
            },
            ProgramEnd::Failure { status, stdout, stderr } => r matches AfterProgram::Report(v)
                && fields(v@) == seq![
                ("error"@, failure_text(program@, status@)),
                ("stdout"@, stdout@),
                ("stderr"@, stderr@),
            ],
            ProgramEnd::NotStarted(e) => r matches AfterProgram::Report(v) && fields(v@) == seq![
                ("error"@, not_started_text(program@, e@)),
            ],
        },
{
    match end {
        ProgramEnd::Success(out) => {
            if !script {
                let none: Vec<String> = Vec::new();
                assert(texts(none@) =~= seq![]);
                return AfterProgram::Run(none);
            }
            let v = chars_of(out.as_str());
            AfterProgram::Run(split_lines(trimmed(v.as_slice())))
        },
        ProgramEnd::Failure { status, stdout, stderr } => {
            let mut e = "Executable ".to_owned();
            e.append(program);
            e.append(" exited with error code ");
            e.append(status.as_str());
            let ghost want = seq![
                ("error"@, failure_text(program@, status@)),
                ("stdout"@, stdout@),
                ("stderr"@, stderr@),
            ];
            let mut v: Vec<(String, String)> = Vec::new();
            push_field(&mut v, "error", e);
            push_field(&mut v, "stdout", stdout);
            push_field(&mut v, "stderr", stderr);
            assert(fields(v@) =~= want);
            AfterProgram::Report(v)
        },
        ProgramEnd::NotStarted(x) => {
            let mut e = "Executable ".to_owned();
            e.append(program);
            e.append(" failed to start with error ");
            e.append(x.as_str());
            let ghost want = seq![("error"@, not_started_text(program@, x@))];
            let mut v: Vec<(String, String)> = Vec::new();
            push_field(&mut v, "error", e);
            assert(fields(v@) =~= want);
            AfterProgram::Report(v)
        },
    }
}

/// Each line is what stands before its end, which is a line feed or a carriage return and a line feed. The
/// lines come in their order, and the end of the last one may be missing.
pub proof fn law_lines(line: Seq<char>, rest: Seq<char>)
    requires
        forall|i: int| 0 <= i < line.len() ==> #[trigger] line[i] != '\n',
        line.len() > 0 ==> line.last() != '\r',
    ensures
        lines_of(line + seq!['\n'] + rest) == seq![line] + lines_of(rest),
        lines_of(line + seq!['\r', '\n'] + rest) == seq![line] + lines_of(rest),
        line.len() > 0 ==> lines_of(line) == seq![line],
        lines_of(seq![]) == Seq::<Seq<char>>::empty(),
{
    let a = line + seq!['\n'] + rest;
    let tail = seq!['\n'] + rest;
    assert(a =~= line + tail);
    lemma_position_skips(line, tail, '\n');
    assert(tail[0] == '\n');
    assert(a.take(line.len() as int) =~= line);
    assert(a.skip(line.len() as int + 1) =~= rest);
    let b = line + seq!['\r', '\n'] + rest;
    let more = line.push('\r');
    assert(b =~= more + tail);
    lemma_position_skips(more, tail, '\n');
    assert(b.take(more.len() as int) =~= more);
    assert(b.skip(more.len() as int + 1) =~= rest);
    assert(more.drop_last() =~= line);
    lemma_position_skips(line, Seq::<char>::empty(), '\n');
    assert(line + Seq::<char>::empty() =~= line);
}

/// What is said of a program names it, and says how it ended or why it did not start.
pub proof fn law_words_for_programs(program: Seq<char>, why: Seq<char>)
    ensures
        failure_text(program, why) == "Executable "@ + program + " exited with error code "@ + why,
        not_started_text(program, why) == "Executable "@ + program
            + " failed to start with error "@ + why,
{
}

} // verus!

//! Commands that come through a socket, and the answers to them.
use vstd::prelude::*;
use vstd::utf8::{decode_utf8, valid_utf8};

use crate::number::{decimal, lemma_decimal_round_trip, push_decimal};
use crate::path::{inside, join_path};
use crate::text::{chars_of, string_of, trim, trimmed, utf8_error, utf8_text};

verus! {

/// The name of the socket of a process.
pub open spec fn socket_name(pid: u32) -> Seq<char> {
    "aw-man"@ + decimal(pid as nat) + ".sock"@
}

/// The path of the socket of a process.
pub fn socket_path(directory: &str, pid: u32) -> (r: String)
    ensures
        r@ == inside(directory@, socket_name(pid)),
{
    let mut name = "aw-man".to_owned();
    push_decimal(&mut name, pid as u64);
    name.append(".sock");
    join_path(directory, name.as_str())
}

/// The command in a message, or the answer to a message that has none.
pub fn command_in(message: &[u8]) -> (r: Result<String, String>)
    ensures
        match r {
            Ok(c) => valid_utf8(message@) && c@ == trim(decode_utf8(message@)),
            Err(e) => !valid_utf8(message@) && e@ == "Unable to parse command "@ + utf8_error(
                message@,
            ),
        },
{
    match utf8_text(message) {
        Ok(s) => {
            let v = chars_of(s.as_str());
            Ok(string_of(trimmed(v.as_slice())))
        },
        Err(e) => {
            let mut text = "Unable to parse command ".to_owned();
            text.append(e.as_str());
            Err(text)
        },
    }
}

/// What became of a command.
#[derive(Debug)]
pub enum CommandEnd {
    /// The window could not be told.
    NotSent(String),
    /// It was answered with a JSON text.
    Answered(String),
    /// Nobody had anything to say of it.
    Dropped,
}

/// A text as JSON writes it.
pub uninterp spec fn json_string(s: Seq<char>) -> Seq<char>;

/// `serde_json::Value::to_string` for a string: how it is written depends on the string alone, and
/// is named by `json_string`.
#[verifier::external_body]
fn to_json(s: String) -> (r: String)
    ensures
        r@ == json_string(s@),
{
    serde_json::Value::String(s).to_string()
}

/// The answer to a command, before it is written as JSON unless it is that already.
#[derive(Debug)]
pub enum Answer {
    Json(String),
    Text(String),
}

/// The answer to a command.
pub fn answer(end: CommandEnd) -> (r: Answer)
    ensures
        match end {
            CommandEnd::NotSent(e) => r matches Answer::Text(s) && s@
                == "Error sending socket commend to Gui: "@ + e@,
            CommandEnd::Answered(v) => r == Answer::Json(v),
            CommandEnd::Dropped => r matches Answer::Text(s) && s@ == "done"@,
        },
{
    match end {
        CommandEnd::NotSent(e) => {
            let mut s = "Error sending socket commend to Gui: ".to_owned();
            s.append(e.as_str());
            Answer::Text(s)
        },
        CommandEnd::Answered(v) => Answer::Json(v),
        CommandEnd::Dropped => Answer::Text("done".to_owned()),
    }
}

/// The JSON text of an answer.
pub fn answer_text(a: Answer) -> (r: String)
    ensures
        r@ == match a {
            Answer::Json(s) => s@,
            Answer::Text(s) => json_string(s@),
        },
{
    match a {
        Answer::Json(s) => s,
        Answer::Text(s) => to_json(s),
    }
}

/// Bytes that are written piece by piece.
#[derive(Debug)]
pub struct Outgoing {
    bytes: Vec<u8>,
    sent: usize,
}

impl Outgoing {
    /// All the bytes.
    pub closed spec fn bytes(self) -> Seq<u8> {
        self.bytes@
    }

    /// How many of them were written.
    pub closed spec fn sent(self) -> nat {
        self.sent as nat
    }

    /// Whether no more was written than there is.
    pub open spec fn wf(self) -> bool {
        self.sent() <= self.bytes().len()
    }

    /// Nothing was written yet.
    pub fn new(bytes: Vec<u8>) -> (r: Self)
        ensures
            r.wf(),
            r.bytes() == bytes@,
            r.sent() == 0,
    {
        Outgoing { bytes, sent: 0 }
    }

    /// What is to be written next.
    pub fn rest(&self) -> (r: &[u8])
        requires
            self.wf(),
        ensures
            r@ == self.bytes().skip(self.sent() as int),
    {
        let r = vstd::slice::slice_subrange(self.bytes.as_slice(), self.sent, self.bytes.len());
        assert(r@ =~= self.bytes().skip(self.sent() as int));
        r
    }

    /// Some of that was written. Says whether there is nothing left.
    pub fn wrote(&mut self, n: usize) -> (r: bool)
        requires
            old(self).wf(),
            old(self).sent() + n <= old(self).bytes().len(),
        ensures
            final(self).wf(),
            final(self).bytes() == old(self).bytes(),
            final(self).sent() == old(self).sent() + n,
            r == (final(self).sent() == final(self).bytes().len()),
    {
        let len: usize = self.bytes.len();
        self.sent += n;
        self.sent >= len
    }
}

/// Pieces of some bytes that were written one after the other.
pub open spec fn pieces(bytes: Seq<u8>, sizes: Seq<nat>) -> Seq<u8>
    decreases sizes.len(),
{
    if sizes.len() == 0 {
        seq![]
    } else {
        let before = pieces(bytes, sizes.drop_last());
        before + bytes.skip(before.len() as int).take(sizes.last() as int)
    }
}

/// How many bytes pieces have together.
pub open spec fn total(sizes: Seq<nat>) -> nat
    decreases sizes.len(),
{
    if sizes.len() == 0 {
        0
    } else {
        total(sizes.drop_last()) + sizes.last()
    }
}

/// Whatever pieces bytes are written in, they arrive in order and none is left out or written
/// twice.
pub proof fn law_written_in_order(bytes: Seq<u8>, sizes: Seq<nat>)
    requires
        total(sizes) <= bytes.len(),
    ensures
        pieces(bytes, sizes) == bytes.take(total(sizes) as int),
    decreases sizes.len(),
{
    if sizes.len() == 0 {
        assert(bytes.take(0) =~= seq![]);
    } else {
        law_written_in_order(bytes, sizes.drop_last());
        assert(pieces(bytes, sizes) =~= bytes.take(total(sizes) as int));
    }
}

/// Each process has a socket of its own.
pub proof fn law_sockets_are_told_apart(directory: Seq<char>, a: u32, b: u32)
    ensures
        socket_name(a) == "aw-man"@ + decimal(a as nat) + ".sock"@,
        inside(directory, socket_name(a)) == inside(directory, socket_name(b)) ==> a == b,
{
    let x = socket_name(a);
    let y = socket_name(b);
    reveal_strlit("aw-man");
    reveal_strlit(".sock");
    assert(x[0] == 'a');
    assert(y[0] == 'a');
    if inside(directory, x) == inside(directory, y) {
        let n: int = if directory.len() == 0 || directory.last() == '/' {
            directory.len() as int
        } else {
            directory.len() as int + 1
        };
        assert(inside(directory, x).skip(n) =~= x);
        assert(inside(directory, y).skip(n) =~= y);
        assert(x == y);
        lemma_decimal_round_trip(a as nat, u32::MAX as nat);
        lemma_decimal_round_trip(b as nat, u32::MAX as nat);
        assert(x.subrange(6, x.len() - 5) =~= decimal(a as nat));
        assert(y.subrange(6, y.len() - 5) =~= decimal(b as nat));
    }
}

} // verus!

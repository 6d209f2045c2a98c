//! Closing the application.
use vstd::prelude::*;

use crate::number::{decimal, lemma_decimal_round_trip, push_decimal};

verus! {

/// Whether the application is being closed.
#[derive(Debug)]
pub struct Closing {
    closed: bool,
}

/// The name of the file that the reason for a crash is written to.
pub open spec fn crash_file(pid: u32) -> Seq<char> {
    "aw-man_crash_"@ + decimal(pid as nat)
}

/// What to do when the application is told to end by a signal.
#[derive(Clone, Copy, Debug, PartialEq, Eq, Structural)]
pub enum SignalStep {
    Close,
    /// Exit at once with a code.
    Exit(i32),
}

/// What to do when the user wants to quit.
#[derive(Clone, Copy, Debug, PartialEq, Eq, Structural)]
pub enum QuitStep {
    /// Close the window at once.
    CloseWindow,
    /// Ask the page manager to end, after running the command for that if it is wanted.
    AskManager { command: bool },
}

impl Closing {
    pub closed spec fn spec_closed(self) -> bool {
        self.closed
    }

    /// The application was started.
    pub fn new() -> (r: Self)
        ensures
            !r.spec_closed(),
    {
        Closing { closed: false }
    }

    /// Whether the application is being closed.
    pub fn closed(&self) -> (r: bool)
        ensures
            r == self.spec_closed(),
    {
        self.closed
    }

    /// Closes the application. Says whether this is the first time, and everyone is to be told.
    pub fn close(&mut self) -> (r: bool)
        ensures
            final(self).spec_closed(),
            r == !old(self).spec_closed(),
    {
        let first = !self.closed;
        self.closed = true;
        first
    }

    /// Closes the application because of an error. Gives the name of the file that the error is to
    /// be written to, if it is the first one.
    pub fn fatal(&mut self, pid: u32) -> (r: Option<String>)
        ensures
            final(self).spec_closed(),
            old(self).spec_closed() ==> r is None,
            !old(self).spec_closed() ==> (r matches Some(s) && s@ == crash_file(pid)),
    {
        if !self.close() {
            return None;
        }
        let mut s = "aw-man_crash_".to_owned();
        push_decimal(&mut s, pid as u64);
        Some(s)
    }

    /// The application is told to end by a signal. The second one ends it at once.
    pub fn signal(&mut self) -> (r: SignalStep)
        ensures
            final(self).spec_closed(),
            r == if old(self).spec_closed() {
                SignalStep::Exit(1)
            } else {
                SignalStep::Close
            },
    {
        if self.close() {
            SignalStep::Close
        } else {
            SignalStep::Exit(1)
        }
    }

    /// The user wants to quit. The second time, or when the application is being closed anyway,
    /// nothing is waited for.
    pub fn quit(&mut self, exit_requested: &mut bool, commands: bool) -> (r: QuitStep)
        ensures
            r == if *old(exit_requested) || old(self).spec_closed() {
                QuitStep::CloseWindow
            } else {
                QuitStep::AskManager { command: commands }
            },
            *final(exit_requested) == (*old(exit_requested) || r is AskManager),
            final(self).spec_closed() == (old(self).spec_closed() || r == QuitStep::CloseWindow),
    {
        if *exit_requested || self.closed {
            self.closed = true;
            return QuitStep::CloseWindow;
        }
        *exit_requested = true;
        QuitStep::AskManager { command: commands }
    }
}

/// Something that is dropped when a thread ends. It must not end before the application is being
/// closed.
#[derive(Debug)]
pub struct CloseOnDrop {
    /// The name of the thread, if it has one.
    pub thread: Option<String>,
}

/// What is said when a thread ends unexpectedly.
pub open spec fn dropped_message(thread: Option<Seq<char>>) -> Seq<char> {
    "CloseOnDrop for "@ + match thread {
        Some(n) => n,
        None => "unnamed"@,
    } + " was dropped without closing::close() being called."@
}

impl CloseOnDrop {
    /// What is fatally wrong when the thread ends, if anything is.
    pub fn dropped(&self, closed: bool, panicking: bool) -> (r: Option<String>)
        ensures
            closed || panicking ==> r is None,
            !closed && !panicking ==> (r matches Some(s) && s@ == dropped_message(
                match self.thread {
                    Some(n) => Some(n@),
                    None => None,
                },
            )),
    {
        if closed || panicking {
            return None;
        }
        let mut s = "CloseOnDrop for ".to_owned();
        match &self.thread {
            Some(n) => s.append(n.as_str()),
            None => s.append("unnamed"),
        }
        s.append(" was dropped without closing::close() being called.");
        Some(s)
    }
}

/// The reason for a crash is written to a file of the process.
pub proof fn law_crash_files_are_told_apart(a: u32, b: u32)
    ensures
        crash_file(a) == "aw-man_crash_"@ + decimal(a as nat),
        crash_file(a) == crash_file(b) ==> a == b,
{
    reveal_strlit("aw-man_crash_");
    if crash_file(a) == crash_file(b) {
        lemma_decimal_round_trip(a as nat, u32::MAX as nat);
        lemma_decimal_round_trip(b as nat, u32::MAX as nat);
        assert(crash_file(a).skip(13) =~= decimal(a as nat));
        assert(crash_file(b).skip(13) =~= decimal(b as nat));
    }
}

/// A thread that ends too early is named, if it has a name.
pub proof fn law_threads_are_named(name: Seq<char>)
    ensures
        dropped_message(Some(name)) == "CloseOnDrop for "@ + name
            + " was dropped without closing::close() being called."@,
        dropped_message(None) == dropped_message(Some("unnamed"@)),
{
}

} // verus!

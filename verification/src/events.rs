//! The discrete events recovered from the shell-integration marker
//! protocol, together with their specification-level model.

use vstd::prelude::*;

verus! {

/// State of the working tree as reported by the git marker.
#[derive(Debug, Clone, Copy, PartialEq, Eq, Structural)]
pub enum GitStatus {
    Clean,
    Dirty,
    Conflicts,
}

/// One discrete shell-integration event, queued by the parser in FIFO
/// order and drained once per control tick.
#[derive(Debug, Clone)]
pub enum ParserEvent {
    CommandStart,
    Command(String),
    CommandEnd(i32),
    Directory(String),
    GitInfo { branch: String, status: Option<GitStatus> },
    PromptShown,
}

/// Specification-level model of a parser event.
pub ghost enum EventV {
    CommandStart,
    Command(Seq<char>),
    CommandEnd(int),
    Directory(Seq<char>),
    GitInfo { branch: Seq<char>, status: Option<GitStatus> },
    PromptShown,
}

impl View for ParserEvent {
    type V = EventV;

    open spec fn view(&self) -> EventV {
        match self {
            ParserEvent::CommandStart => EventV::CommandStart,
            ParserEvent::Command(s) => EventV::Command(s@),
            ParserEvent::CommandEnd(c) => EventV::CommandEnd(*c as int),
            ParserEvent::Directory(d) => EventV::Directory(d@),
            ParserEvent::GitInfo { branch, status } => EventV::GitInfo {
                branch: branch@,
                status: *status,
            },
            ParserEvent::PromptShown => EventV::PromptShown,
        }
    }
}

} // verus!

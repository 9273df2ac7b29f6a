//! The command protocol: what a client may ask of a cache and how the
//! answer is marked.
//!
//! A request is the name of a cache, one action tag and the action's
//! payload; a response is one status tag and the payload that the status
//! calls for.

use crate::codec::{CodecError, Wire};
use vstd::prelude::*;

verus! {

/// What a client asks a cache to do.
#[derive(Clone, Copy, Debug, PartialEq, Eq, Structural)]
pub enum Command {
    /// One record by key.
    Get,
    /// The records under several keys, absent keys left out.
    MGet,
    /// Write one record under a key.
    SetOne,
    /// Write a mapping of records.
    MSet,
    /// Every key.
    Keys,
    /// Write the cache to its file. Sent to every cache at once over the
    /// command-and-control channel, not asked over a connection.
    Save,
}

impl DeepView for Command {
    type V = Command;

    open spec fn deep_view(&self) -> Command {
        *self
    }
}

impl Command {
    /// The byte that stands for the command.
    pub open spec fn tag_of(self) -> u8 {
        match self {
            Command::Get => 0,
            Command::MGet => 1,
            Command::SetOne => 2,
            Command::MSet => 3,
            Command::Keys => 4,
            Command::Save => 5,
        }
    }

    /// The command a byte stands for, if any.
    pub open spec fn of_tag(tag: u8) -> Option<Command> {
        if tag == 0 {
            Some(Command::Get)
        } else if tag == 1 {
            Some(Command::MGet)
        } else if tag == 2 {
            Some(Command::SetOne)
        } else if tag == 3 {
            Some(Command::MSet)
        } else if tag == 4 {
            Some(Command::Keys)
        } else if tag == 5 {
            Some(Command::Save)
        } else {
            None
        }
    }

    pub fn tag(&self) -> (t: u8)
        ensures
            t == self.tag_of(),
            Command::of_tag(t) == Some(*self),
    {
        match self {
            Command::Get => 0,
            Command::MGet => 1,
            Command::SetOne => 2,
            Command::MSet => 3,
            Command::Keys => 4,
            Command::Save => 5,
        }
    }

    pub fn from_tag(tag: u8) -> (c: Option<Command>)
        ensures
            c == Command::of_tag(tag),
            c matches Some(x) ==> x.tag_of() == tag,
    {
        if tag == 0 {
            Some(Command::Get)
        } else if tag == 1 {
            Some(Command::MGet)
        } else if tag == 2 {
            Some(Command::SetOne)
        } else if tag == 3 {
            Some(Command::MSet)
        } else if tag == 4 {
            Some(Command::Keys)
        } else if tag == 5 {
            Some(Command::Save)
        } else {
            None
        }
    }
}

pub open spec fn command_parse(bytes: Seq<u8>) -> Result<(Command, nat), CodecError> {
    if bytes.len() < 1 {
        Err(CodecError::Incomplete)
    } else {
        match Command::of_tag(bytes[0]) {
            Some(c) => Ok((c, 1nat)),
            None => Err(CodecError::Invalid),
        }
    }
}

impl Wire for Command {
    open spec fn fits(v: Command) -> bool {
        true
    }

    open spec fn wire(v: Command) -> Seq<u8> {
        seq![v.tag_of()]
    }

    open spec fn parse(bytes: Seq<u8>) -> Result<(Command, nat), CodecError> {
        command_parse(bytes)
    }

    proof fn lemma_round_trip(v: Command, rest: Seq<u8>) {
    }

    proof fn lemma_parse_within(bytes: Seq<u8>) {
    }

    proof fn lemma_parse_exact(bytes: Seq<u8>) {
        if bytes.len() >= 1 && Command::of_tag(bytes[0]) is Some {
            assert(seq![bytes[0]] =~= bytes.take(1));
        }
    }

    proof fn lemma_invalid_stays(bytes: Seq<u8>, more: Seq<u8>) {
        if bytes.len() >= 1 {
            assert((bytes + more)[0] == bytes[0]);
        }
    }

    fn write(&self, out: &mut Vec<u8>) {
        out.push(self.tag());
    }

    fn read(bytes: &[u8], at: usize) -> (r: Result<(Command, usize), CodecError>) {
        if bytes.len() - at < 1 {
            Err(CodecError::Incomplete)
        } else {
            match Command::from_tag(bytes[at]) {
                Some(c) => Ok((c, at + 1)),
                None => Err(CodecError::Invalid),
            }
        }
    }
}

/// How a response is marked.
#[derive(Clone, Copy, Debug, PartialEq, Eq, Structural)]
pub enum Status {
    /// The request was carried out; a payload follows where the action has
    /// one.
    Done,
    /// Nothing was found, or the write changed nothing.
    Empty,
    /// The request failed.
    Failed,
}

impl DeepView for Status {
    type V = Status;

    open spec fn deep_view(&self) -> Status {
        *self
    }
}

impl Status {
    /// The byte that stands for the status.
    pub open spec fn tag_of(self) -> u8 {
        match self {
            Status::Done => 0,
            Status::Empty => 1,
            Status::Failed => 2,
        }
    }

    /// The status a byte stands for, if any.
    pub open spec fn of_tag(tag: u8) -> Option<Status> {
        if tag == 0 {
            Some(Status::Done)
        } else if tag == 1 {
            Some(Status::Empty)
        } else if tag == 2 {
            Some(Status::Failed)
        } else {
            None
        }
    }

    pub fn tag(&self) -> (t: u8)
        ensures
            t == self.tag_of(),
            Status::of_tag(t) == Some(*self),
    {
        match self {
            Status::Done => 0,
            Status::Empty => 1,
            Status::Failed => 2,
        }
    }

    pub fn from_tag(tag: u8) -> (s: Option<Status>)
        ensures
            s == Status::of_tag(tag),
            s matches Some(x) ==> x.tag_of() == tag,
    {
        if tag == 0 {
            Some(Status::Done)
        } else if tag == 1 {
            Some(Status::Empty)
        } else if tag == 2 {
            Some(Status::Failed)
        } else {
            None
        }
    }
}

pub open spec fn status_parse(bytes: Seq<u8>) -> Result<(Status, nat), CodecError> {
    if bytes.len() < 1 {
        Err(CodecError::Incomplete)
    } else {
        match Status::of_tag(bytes[0]) {
            Some(s) => Ok((s, 1nat)),
            None => Err(CodecError::Invalid),
        }
    }
}

impl Wire for Status {
    open spec fn fits(v: Status) -> bool {
        true
    }

    open spec fn wire(v: Status) -> Seq<u8> {
        seq![v.tag_of()]
    }

    open spec fn parse(bytes: Seq<u8>) -> Result<(Status, nat), CodecError> {
        status_parse(bytes)
    }

    proof fn lemma_round_trip(v: Status, rest: Seq<u8>) {
    }

    proof fn lemma_parse_within(bytes: Seq<u8>) {
    }

    proof fn lemma_parse_exact(bytes: Seq<u8>) {
        if bytes.len() >= 1 && Status::of_tag(bytes[0]) is Some {
            assert(seq![bytes[0]] =~= bytes.take(1));
        }
    }

    proof fn lemma_invalid_stays(bytes: Seq<u8>, more: Seq<u8>) {
        if bytes.len() >= 1 {
            assert((bytes + more)[0] == bytes[0]);
        }
    }

    fn write(&self, out: &mut Vec<u8>) {
        out.push(self.tag());
    }

    fn read(bytes: &[u8], at: usize) -> (r: Result<(Status, usize), CodecError>) {
        if bytes.len() - at < 1 {
            Err(CodecError::Incomplete)
        } else {
            match Status::from_tag(bytes[at]) {
                Some(s) => Ok((s, at + 1)),
                None => Err(CodecError::Invalid),
            }
        }
    }
}

/// What a cache does when a signal arrives over the command-and-control
/// channel.
#[derive(Clone, Copy, Debug, PartialEq, Eq, Structural)]
pub enum CncAction {
    /// Write the cache to its file.
    Save,
    /// The signal is not one a cache acts on; note it and go on.
    Ignore,
}

/// The reaction of a cache to a signal: `Save` makes it save, every other
/// command is ignored.
pub fn on_signal(cmd: Command) -> (a: CncAction)
    ensures
        a == (if cmd == Command::Save { CncAction::Save } else { CncAction::Ignore }),
{
    match cmd {
        Command::Save => CncAction::Save,
        _ => CncAction::Ignore,
    }
}

} // verus!

//! The questions and commands that a session hands to the outside world, and
//! what comes back.

use vstd::prelude::*;

use crate::destination::Destination;
use crate::payload::{PayloadAnswer, PayloadRequest};
use crate::payload::{PayloadAnswerView, PayloadRequestView};
use crate::session::StateRecord;
use crate::session::{optional_text, StateRecordView};
use crate::text::copied;
use crate::text::texts;

verus! {

/// A control connection: the destination, the options that `ssh` gets as they
/// are, and the socket.
#[derive(Debug, Clone, PartialEq, Eq)]
pub struct Connection {
    pub dest: String,
    pub ssh_args: Vec<String>,
    pub socket: String,
}

/// What a [`Connection`] holds.
#[verifier::ext_equal]
pub struct ConnectionView {
    pub dest: Seq<char>,
    pub ssh_args: Seq<Seq<char>>,
    pub socket: Seq<char>,
}

impl View for Connection {
    type V = ConnectionView;

    open spec fn view(&self) -> ConnectionView {
        ConnectionView {
            dest: self.dest@,
            ssh_args: texts(self.ssh_args@),
            socket: self.socket@,
        }
    }
}

impl Connection {
    /// The connection to a destination over a socket.
    pub fn to(dest: &Destination, socket: &str) -> (r: Connection)
        ensures
            r@ == (ConnectionView {
                dest: dest@.host,
                ssh_args: dest@.ssh_args,
                socket: socket@,
            }),
    {
        Connection {
            dest: dest.host.clone(),
            ssh_args: copied(&dest.ssh_args),
            socket: socket.to_owned(),
        }
    }

    /// The same connection.
    pub fn duplicate(&self) -> (r: Connection)
        ensures
            r@ == self@,
    {
        Connection {
            dest: self.dest.clone(),
            ssh_args: copied(&self.ssh_args),
            socket: self.socket.clone(),
        }
    }
}

/// What is done over a control connection.
#[derive(Debug, Clone, PartialEq, Eq)]
pub enum RemoteStep {
    /// Open the connection.
    Open,
    /// Close the connection.
    Close,
    /// Run a command for its exit status.
    Status(String),
    /// Run a command for its output.
    Capture(String),
    /// Write a file.
    WriteFile { path: String, contents: String, executable: bool },
    /// Pack paths below a local root and unpack them in a remote directory.
    Stream { local_root: String, paths: Vec<String>, remote_dir: String },
    /// Run a command on a terminal.
    Interactive { command: String, use_waypipe: bool },
}

/// What a [`RemoteStep`] holds.
pub enum RemoteStepView {
    Open,
    Close,
    Status(Seq<char>),
    Capture(Seq<char>),
    WriteFile { path: Seq<char>, contents: Seq<char>, executable: bool },
    Stream { local_root: Seq<char>, paths: Seq<Seq<char>>, remote_dir: Seq<char> },
    Interactive { command: Seq<char>, use_waypipe: bool },
}

impl View for RemoteStep {
    type V = RemoteStepView;

    open spec fn view(&self) -> RemoteStepView {
        match self {
            RemoteStep::Open => RemoteStepView::Open,
            RemoteStep::Close => RemoteStepView::Close,
            RemoteStep::Status(command) => RemoteStepView::Status(command@),
            RemoteStep::Capture(command) => RemoteStepView::Capture(command@),
            RemoteStep::WriteFile { path, contents, executable } => RemoteStepView::WriteFile {
                path: path@,
                contents: contents@,
                executable: *executable,
            },
            RemoteStep::Stream { local_root, paths, remote_dir } => RemoteStepView::Stream {
                local_root: local_root@,
                paths: texts(paths@),
                remote_dir: remote_dir@,
            },
            RemoteStep::Interactive { command, use_waypipe } => RemoteStepView::Interactive {
                command: command@,
                use_waypipe: *use_waypipe,
            },
        }
    }
}

/// A question or a command for the outside world.
#[derive(Debug, Clone, PartialEq, Eq)]
pub enum Request {
    /// The process number and the time, from which a marker is drawn.
    DrawSeed,
    /// The state directory of the user and the home directory.
    FindHomes,
    /// Make a directory and those above it.
    MakeDir(String),
    /// What the file at a path remembers of a session.
    LoadRecord(String),
    /// A question about the payload.
    Payload(PayloadRequest),
    /// The contents of a file.
    ReadFile(String),
    /// Remember a session in the file at a path.
    SaveRecord(String, StateRecord),
    /// Forget what the file at a path remembers.
    RemoveRecord(String),
    /// A step over a control connection.
    Remote(Connection, RemoteStep),
}

/// What a [`Request`] holds.
pub enum RequestView {
    DrawSeed,
    FindHomes,
    MakeDir(Seq<char>),
    LoadRecord(Seq<char>),
    Payload(PayloadRequestView),
    ReadFile(Seq<char>),
    SaveRecord(Seq<char>, StateRecordView),
    RemoveRecord(Seq<char>),
    Remote(ConnectionView, RemoteStepView),
}

impl View for Request {
    type V = RequestView;

    open spec fn view(&self) -> RequestView {
        match self {
            Request::DrawSeed => RequestView::DrawSeed,
            Request::FindHomes => RequestView::FindHomes,
            Request::MakeDir(dir) => RequestView::MakeDir(dir@),
            Request::LoadRecord(path) => RequestView::LoadRecord(path@),
            Request::Payload(request) => RequestView::Payload(request@),
            Request::ReadFile(path) => RequestView::ReadFile(path@),
            Request::SaveRecord(path, record) => RequestView::SaveRecord(path@, record@),
            Request::RemoveRecord(path) => RequestView::RemoveRecord(path@),
            Request::Remote(conn, step) => RequestView::Remote(conn@, step@),
        }
    }
}

/// A request, where there is one, seen through the views.
pub open spec fn request_view(r: Option<Request>) -> Option<RequestView> {
    match r {
        Some(request) => Some(request@),
        None => None,
    }
}

/// How the attempt to remember a session went.
#[derive(Debug, Clone, Copy, PartialEq, Eq, Structural)]
pub enum SaveOutcome {
    Written,
    NotSerialized,
    NotWritten,
}

/// How an interactive session went.
#[derive(Debug, Clone, Copy, PartialEq, Eq, Structural)]
pub enum Ending {
    /// It could not be started.
    NotStarted,
    /// It ended with an exit code, or was ended by a signal.
    Exited(Option<i32>),
}

/// An answer to a [`Request`].
#[derive(Debug, Clone, PartialEq, Eq)]
pub enum Answer {
    /// The process number, and the nanoseconds since the epoch where the clock
    /// tells them.
    Seed(u32, Option<u128>),
    /// `$XDG_STATE_HOME` and the home directory, each where it is known.
    Homes(Option<String>, Option<String>),
    /// Whether a command was carried out.
    Done(bool),
    /// What a file remembers, if it does.
    Record(Option<StateRecord>),
    /// An answer about the payload.
    Payload(PayloadAnswer),
    /// The contents of a file, if it can be read.
    Contents(Option<Vec<u8>>),
    /// How the attempt to remember a session went.
    Saved(SaveOutcome),
    /// Whether a command exited with success, if it could be run.
    Status(Option<bool>),
    /// What a command wrote, if it exited with success.
    Output(Option<String>),
    /// How an interactive session went.
    Ended(Ending),
}

/// What an [`Answer`] holds.
pub enum AnswerView {
    Seed(u32, Option<u128>),
    Homes(Option<Seq<char>>, Option<Seq<char>>),
    Done(bool),
    Record(Option<StateRecordView>),
    Payload(PayloadAnswerView),
    Contents(Option<Seq<u8>>),
    Saved(SaveOutcome),
    Status(Option<bool>),
    Output(Option<Seq<char>>),
    Ended(Ending),
}

/// What a file remembers, seen through the views.
pub open spec fn record_view(r: Option<StateRecord>) -> Option<StateRecordView> {
    match r {
        Some(record) => Some(record@),
        None => None,
    }
}

/// The contents of a file, seen through the views.
pub open spec fn contents_view(r: Option<Vec<u8>>) -> Option<Seq<u8>> {
    match r {
        Some(bytes) => Some(bytes@),
        None => None,
    }
}

impl View for Answer {
    type V = AnswerView;

    open spec fn view(&self) -> AnswerView {
        match self {
            Answer::Seed(process, nanos) => AnswerView::Seed(*process, *nanos),
            Answer::Homes(state_home, home) => AnswerView::Homes(
                optional_text(*state_home),
                optional_text(*home),
            ),
            Answer::Done(done) => AnswerView::Done(*done),
            Answer::Record(record) => AnswerView::Record(record_view(*record)),
            Answer::Payload(answer) => AnswerView::Payload(answer@),
            Answer::Contents(contents) => AnswerView::Contents(contents_view(*contents)),
            Answer::Saved(outcome) => AnswerView::Saved(*outcome),
            Answer::Status(success) => AnswerView::Status(*success),
            Answer::Output(output) => AnswerView::Output(optional_text(*output)),
            Answer::Ended(ending) => AnswerView::Ended(*ending),
        }
    }
}

} // verus!

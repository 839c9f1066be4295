//! The protocol that enters a prepared session.

use vstd::prelude::*;

use crate::destination::Destination;
use crate::destination::DestinationView;
use crate::nomad::{ControlGuard, Nomad, NomadError, PreparedSession};
use crate::nomad::{launcher_path, ControlGuardView, NomadErrorView, PreparedSessionView};
use crate::protocol::{Answer, Connection, Ending, RemoteStep, Request};
use crate::protocol::{request_view, AnswerView, ConnectionView, RemoteStepView, RequestView};
use crate::text::joined;

verus! {

/// What entering a session starts from.
pub struct EnterSetup {
    pub dest: DestinationView,
    pub session: PreparedSessionView,
    pub use_waypipe: bool,
}

/// How far entering a session has come.
pub enum EnterStage<'a> {
    Running { guard: ControlGuard<'a> },
    Closing { conn: Connection, ending: Ending },
    Finished(Ending),
}

/// What an [`EnterStage`] holds.
pub enum EnterStageView {
    Running { guard: ControlGuardView },
    Closing { conn: ConnectionView, ending: Ending },
    Finished(Ending),
}

impl<'a> View for EnterStage<'a> {
    type V = EnterStageView;

    open spec fn view(&self) -> EnterStageView {
        match self {
            EnterStage::Running { guard } => EnterStageView::Running { guard: guard@ },
            EnterStage::Closing { conn, ending } => EnterStageView::Closing {
                conn: conn@,
                ending: *ending,
            },
            EnterStage::Finished(ending) => EnterStageView::Finished(*ending),
        }
    }
}

/// The connection of a prepared session.
pub open spec fn session_connection(setup: EnterSetup) -> ConnectionView {
    ConnectionView {
        dest: setup.dest.host,
        ssh_args: setup.dest.ssh_args,
        socket: setup.session.socket,
    }
}

/// The first stage.
pub open spec fn first_enter_stage(setup: EnterSetup) -> EnterStageView {
    EnterStageView::Running {
        guard: ControlGuardView { conn: session_connection(setup), disarmed: false },
    }
}

/// What a stage asks for.
pub open spec fn enter_request(setup: EnterSetup, stage: EnterStageView) -> Option<RequestView> {
    match stage {
        EnterStageView::Running { guard } => Some(
            RequestView::Remote(
                guard.conn,
                RemoteStepView::Interactive {
                    command: launcher_path(setup.session.remote_root),
                    use_waypipe: setup.use_waypipe,
                },
            ),
        ),
        EnterStageView::Closing { conn, .. } => Some(
            RequestView::Remote(conn, RemoteStepView::Close),
        ),
        EnterStageView::Finished(_) => None,
    }
}

/// The stage that follows an answer. An answer that does not fit the question
/// changes nothing.
pub open spec fn next_enter_stage(stage: EnterStageView, answer: AnswerView) -> EnterStageView {
    match (stage, answer) {
        (EnterStageView::Running { guard }, AnswerView::Ended(ending)) => if guard.disarmed {
            EnterStageView::Finished(ending)
        } else {
            EnterStageView::Closing { conn: guard.conn, ending }
        },
        (EnterStageView::Closing { ending, .. }, AnswerView::Done(_)) => EnterStageView::Finished(
            ending,
        ),
        _ => stage,
    }
}

/// A session that is being entered.
pub struct Entering<'a> {
    dest: &'a Destination,
    session: &'a PreparedSession,
    use_waypipe: bool,
    stage: EnterStage<'a>,
}

impl<'a> Entering<'a> {
    /// What entering started from.
    pub closed spec fn setup(&self) -> EnterSetup {
        EnterSetup { dest: self.dest@, session: self.session@, use_waypipe: self.use_waypipe }
    }

    /// How far entering has come.
    pub closed spec fn stage(&self) -> EnterStageView {
        self.stage@
    }

    /// What is asked for next, if there is anything.
    pub fn request(&self) -> (r: Option<Request>)
        ensures
            request_view(r) == enter_request(self.setup(), self.stage()),
    {
        match &self.stage {
            EnterStage::Running { guard } => Some(
                Request::Remote(
                    guard.connection(),
                    RemoteStep::Interactive {
                        command: joined(self.session.remote_root.as_str(), "/.nomad-shell"),
                        use_waypipe: self.use_waypipe,
                    },
                ),
            ),
            EnterStage::Closing { conn, .. } => Some(
                Request::Remote(conn.duplicate(), RemoteStep::Close),
            ),
            EnterStage::Finished(_) => None,
        }
    }

    /// The session after an answer.
    pub fn answer(self, answer: Answer) -> (r: Entering<'a>)
        ensures
            r.setup() == self.setup(),
            r.stage() == next_enter_stage(self.stage(), answer@),
    {
        let stage = match (self.stage, answer) {
            (EnterStage::Running { guard }, Answer::Ended(ending)) => match guard.release() {
                Some(conn) => EnterStage::Closing { conn, ending },
                None => EnterStage::Finished(ending),
            },
            (EnterStage::Closing { ending, .. }, Answer::Done(_)) => EnterStage::Finished(ending),
            (stage, _) => stage,
        };
        Entering {
            dest: self.dest,
            session: self.session,
            use_waypipe: self.use_waypipe,
            stage,
        }
    }

    /// The exit code of the session, where it has one, or why it did not start,
    /// once it is over.
    pub fn outcome(self) -> (r: Option<Result<Option<i32>, NomadError>>)
        ensures
            match r {
                Some(Ok(code)) => self.stage() == EnterStageView::Finished(Ending::Exited(code)),
                Some(Err(err)) => self.stage() == EnterStageView::Finished(Ending::NotStarted)
                    && err@ == NomadErrorView::Interactive,
                None => !(self.stage() is Finished),
            },
    {
        match self.stage {
            EnterStage::Finished(Ending::Exited(code)) => Some(Ok(code)),
            EnterStage::Finished(Ending::NotStarted) => Some(Err(NomadError::Interactive)),
            _ => None,
        }
    }
}

impl<'a> Nomad<'a> {
    /// Begins to enter a prepared session. Its connection is closed afterwards,
    /// whatever comes of it.
    pub fn enter(&self, dest: &'a Destination, session: &'a PreparedSession, use_waypipe: bool) -> (r:
        Entering<'a>)
        ensures
            r.setup() == (EnterSetup { dest: dest@, session: session@, use_waypipe }),
            r.stage() == first_enter_stage(r.setup()),
    {
        Entering {
            dest,
            session,
            use_waypipe,
            stage: EnterStage::Running { guard: ControlGuard::new(dest, session.socket.clone()) },
        }
    }
}

} // verus!

//! What holds of every session, however the outside world answers.

use vstd::prelude::*;

use crate::clean::{
    clean_request, marker_matches, next_clean_stage, remove_command, CleanSetup, CleanStageView,
};
use crate::enter::{
    enter_request, first_enter_stage, next_enter_stage, session_connection, EnterSetup,
    EnterStageView,
};
use crate::nomad::{launcher_path, removal_verdict, ControlGuardView};
use crate::payload::{PayloadAnswerView, PayloadRequestView, PayloadStageView};
use crate::prepare::{
    connection_of, drawn_marker, next_prepare_stage, prepare_request, PrepareStageView, Setup,
};
use crate::protocol::Ending;
use crate::protocol::{AnswerView, ConnectionView, RemoteStepView, RequestView};
use crate::session::{socket_in, StateRecordView};

verus! {

/// The control connections that are open after a request was answered: one that
/// was opened with success is open until it is closed.
pub open spec fn connections_after(
    open: Set<ConnectionView>,
    request: Option<RequestView>,
    answer: AnswerView,
) -> Set<ConnectionView> {
    match (request, answer) {
        (
            Some(RequestView::Remote(conn, RemoteStepView::Open)),
            AnswerView::Done(done),
        ) => if done {
            open.insert(conn)
        } else {
            open
        },
        (
            Some(RequestView::Remote(conn, RemoteStepView::Close)),
            AnswerView::Done(_),
        ) => open.remove(conn),
        _ => open,
    }
}

/// Whether an answer is of the kind that a request asks for.
pub open spec fn fits(request: RequestView, answer: AnswerView) -> bool {
    match request {
        RequestView::DrawSeed => answer is Seed,
        RequestView::FindHomes => answer is Homes,
        RequestView::MakeDir(_) => answer is Done,
        RequestView::LoadRecord(_) => answer is Record,
        RequestView::Payload(PayloadRequestView::ReadManifest(_)) => answer matches AnswerView::Payload(
            PayloadAnswerView::Manifest(_),
        ),
        RequestView::Payload(PayloadRequestView::ListTracked(_)) => answer matches AnswerView::Payload(
            PayloadAnswerView::Listing(_),
        ),
        RequestView::ReadFile(_) => answer is Contents,
        RequestView::SaveRecord(_, _) => answer is Saved,
        RequestView::RemoveRecord(_) => answer is Done,
        RequestView::Remote(_, step) => match step {
            RemoteStepView::Open => answer is Done,
            RemoteStepView::Close => answer is Done,
            RemoteStepView::Status(_) => answer is Status,
            RemoteStepView::Capture(_) => answer is Output,
            RemoteStepView::WriteFile { .. } => answer is Done,
            RemoteStepView::Stream { .. } => answer is Done,
            RemoteStepView::Interactive { .. } => answer is Ended,
        },
    }
}

/// The stage of a preparation after answers.
pub open spec fn prepare_after(setup: Setup, answers: Seq<AnswerView>) -> PrepareStageView
    decreases answers.len(),
{
    if answers.len() == 0 {
        PrepareStageView::Seeding
    } else {
        next_prepare_stage(setup, prepare_after(setup, answers.drop_last()), answers.last())
    }
}

/// The control connections that a preparation has open after answers.
pub open spec fn prepare_open(setup: Setup, answers: Seq<AnswerView>) -> Set<ConnectionView>
    decreases answers.len(),
{
    if answers.len() == 0 {
        Set::empty()
    } else {
        connections_after(
            prepare_open(setup, answers.drop_last()),
            prepare_request(setup, prepare_after(setup, answers.drop_last())),
            answers.last(),
        )
    }
}

/// The guard of a stage that has one.
pub open spec fn guard_of(stage: PrepareStageView) -> Option<ControlGuardView> {
    match stage {
        PrepareStageView::FindingHome { guard } => Some(guard),
        PrepareStageView::MakingDir { guard, .. } => Some(guard),
        PrepareStageView::Loading { base } => Some(base.guard),
        PrepareStageView::Listing { base, .. } => Some(base.guard),
        PrepareStageView::Reading { base, .. } => Some(base.guard),
        PrepareStageView::Probing { base, .. } => Some(base.guard),
        PrepareStageView::Creating { base, .. } => Some(base.guard),
        PrepareStageView::Drawing { base, .. } => Some(base.guard),
        PrepareStageView::Streaming { base, .. } => Some(base.guard),
        PrepareStageView::Marking { base, .. } => Some(base.guard),
        PrepareStageView::Saving { base, .. } => Some(base.guard),
        PrepareStageView::FindingShell { base, .. } => Some(base.guard),
        PrepareStageView::Launching { base, .. } => Some(base.guard),
        _ => None,
    }
}

/// The control connections that a stage holds.
spec fn held(setup: Setup, stage: PrepareStageView) -> Set<ConnectionView> {
    match stage {
        PrepareStageView::Seeding => Set::empty(),
        PrepareStageView::Opening { .. } => Set::empty(),
        PrepareStageView::Closing { conn, .. } => set![conn],
        PrepareStageView::Finished(Ok(session)) => set![connection_of(setup, session.socket)],
        PrepareStageView::Finished(Err(_)) => Set::empty(),
        _ => set![guard_of(stage)->0.conn],
    }
}

/// Whether a stage owes the close of the connection that the preparation opened,
/// and has its listing and reading in range.
spec fn sound(setup: Setup, stage: PrepareStageView) -> bool {
    &&& guard_of(stage) matches Some(guard) ==> !guard.disarmed && guard.conn == connection_of(
        setup,
        guard.conn.socket,
    )
    &&& match stage {
        PrepareStageView::Listing { listing, .. } => match listing {
            PayloadStageView::Manifest(_) => true,
            PayloadStageView::Items(items, next, _) => 0 <= next < items.len(),
            PayloadStageView::Finished(_) => false,
        },
        PrepareStageView::Reading { sorted, files, .. } => files.len() < sorted.len(),
        _ => true,
    }
}

#[verifier::rlimit(50)]
proof fn lemma_sound_step(setup: Setup, stage: PrepareStageView, answer: AnswerView)
    requires
        sound(setup, stage),
    ensures
        sound(setup, next_prepare_stage(setup, stage, answer)),
        connections_after(held(setup, stage), prepare_request(setup, stage), answer) =~= held(
            setup,
            next_prepare_stage(setup, stage, answer),
        ),
{
}

proof fn lemma_prepare_holds(setup: Setup, answers: Seq<AnswerView>)
    ensures
        sound(setup, prepare_after(setup, answers)),
        prepare_open(setup, answers) == held(setup, prepare_after(setup, answers)),
    decreases answers.len(),
{
    if answers.len() > 0 {
        lemma_prepare_holds(setup, answers.drop_last());
        lemma_sound_step(setup, prepare_after(setup, answers.drop_last()), answers.last());
    }
}

/// A preparation leaves no control connection behind: whatever is answered, none
/// is open once it has failed, and once it has succeeded just the one is open
/// whose socket the session names.
pub proof fn law_preparation_leaves_no_connection_behind(setup: Setup, answers: Seq<AnswerView>)
    ensures
        match prepare_after(setup, answers) {
            PrepareStageView::Finished(Err(_)) => prepare_open(setup, answers) == Set::<
                ConnectionView,
            >::empty(),
            PrepareStageView::Finished(Ok(session)) => prepare_open(setup, answers) == set![
                connection_of(setup, session.socket),
            ],
            _ => prepare_open(setup, answers).len() <= 1,
        },
{
    lemma_prepare_holds(setup, answers);
    let stage = prepare_after(setup, answers);
    if !(stage is Finished) {
        match stage {
            PrepareStageView::Seeding => {},
            PrepareStageView::Opening { .. } => {},
            PrepareStageView::Closing { conn, .. } => {
                assert(Set::<ConnectionView>::empty().insert(conn).len() == 1);
            },
            _ => {
                assert(Set::<ConnectionView>::empty().insert(guard_of(stage)->0.conn).len() == 1);
            },
        }
    }
}

/// How far a preparation is from its end: the number of its stage, and how many
/// entries or files the stage still has to ask about.
pub open spec fn distance(stage: PrepareStageView) -> (int, int) {
    match stage {
        PrepareStageView::Seeding => (17, 0),
        PrepareStageView::Opening { .. } => (16, 0),
        PrepareStageView::FindingHome { .. } => (15, 0),
        PrepareStageView::MakingDir { .. } => (14, 0),
        PrepareStageView::Loading { .. } => (13, 0),
        PrepareStageView::Listing { listing, .. } => match listing {
            PayloadStageView::Items(items, next, _) => (11, items.len() - next),
            _ => (12, 0),
        },
        PrepareStageView::Reading { sorted, files, .. } => (10, sorted.len() - files.len()),
        PrepareStageView::Probing { .. } => (9, 0),
        PrepareStageView::Creating { .. } => (8, 0),
        PrepareStageView::Drawing { .. } => (7, 0),
        PrepareStageView::Streaming { .. } => (6, 0),
        PrepareStageView::Marking { .. } => (5, 0),
        PrepareStageView::Saving { .. } => (4, 0),
        PrepareStageView::FindingShell { .. } => (3, 0),
        PrepareStageView::Launching { .. } => (2, 0),
        PrepareStageView::Closing { .. } => (1, 0),
        PrepareStageView::Finished(_) => (0, 0),
    }
}

/// Whether a stage is closer to the end than another.
pub open spec fn closer(next: PrepareStageView, stage: PrepareStageView) -> bool {
    let (rank, left) = distance(stage);
    let (next_rank, next_left) = distance(next);
    &&& 0 <= next_rank
    &&& 0 <= next_left
    &&& next_rank < rank || (next_rank == rank && next_left < left)
}

/// A preparation that is not finished asks for something, and every fitting
/// answer brings it closer to its end, whatever was answered before.
pub proof fn law_preparation_advances(setup: Setup, answers: Seq<AnswerView>, answer: AnswerView)
    ensures
        ({
            let stage = prepare_after(setup, answers);
            &&& prepare_request(setup, stage) is Some <==> !(stage is Finished)
            &&& (prepare_request(setup, stage) matches Some(request) && fits(request, answer))
                ==> closer(prepare_after(setup, answers.push(answer)), stage)
        }),
{
    lemma_prepare_holds(setup, answers);
    lemma_advance_step(setup, prepare_after(setup, answers), answer);
    assert(answers.push(answer).drop_last() =~= answers);
    assert(answers.push(answer).last() == answer);
}

#[verifier::rlimit(50)]
proof fn lemma_advance_step(setup: Setup, stage: PrepareStageView, answer: AnswerView)
    requires
        sound(setup, stage),
    ensures
        prepare_request(setup, stage) is Some <==> !(stage is Finished),
        (prepare_request(setup, stage) matches Some(request) && fits(request, answer)) ==> closer(
            next_prepare_stage(setup, stage, answer),
            stage,
        ),
{
}

/// The first seed that was drawn.
pub open spec fn first_seed(answers: Seq<AnswerView>) -> Option<(u32, Option<u128>)>
    decreases answers.len(),
{
    if answers.len() == 0 {
        None
    } else {
        match first_seed(answers.drop_last()) {
            Some(seed) => Some(seed),
            None => match answers.last() {
                AnswerView::Seed(process, nanos) => Some((process, nanos)),
                _ => None,
            },
        }
    }
}

/// The connection of a preparation whose first draw gave `seed`.
pub open spec fn drawn_connection(setup: Setup, seed: (u32, Option<u128>)) -> ConnectionView {
    connection_of(
        setup,
        socket_in(setup.temp_dir, "nomad-socket."@, drawn_marker(seed.0, seed.1)),
    )
}

/// Every step that a preparation takes on the remote host goes to the
/// destination, with the forwarded options and over the one socket that the
/// first draw named, whatever is answered. So does the session that is prepared.
pub proof fn law_preparation_keeps_to_one_connection(setup: Setup, answers: Seq<AnswerView>)
    ensures
        prepare_request(setup, prepare_after(setup, answers)) matches Some(
            RequestView::Remote(conn, _),
        ) ==> (first_seed(answers) matches Some(seed) && conn == drawn_connection(setup, seed)),
        prepare_after(setup, answers) matches PrepareStageView::Finished(Ok(session)) ==> (
        first_seed(answers) matches Some(seed) && connection_of(setup, session.socket)
            == drawn_connection(setup, seed)),
{
    lemma_one_socket(setup, answers);
    lemma_remote_connection(setup, prepare_after(setup, answers));
}

/// A step on the remote host goes over the connection of its stage.
proof fn lemma_remote_connection(setup: Setup, stage: PrepareStageView)
    ensures
        prepare_request(setup, stage) matches Some(RequestView::Remote(conn, _))
            ==> stage_connection(setup, stage) == Some(conn),
{
}

/// The connection of a stage that has one.
spec fn stage_connection(setup: Setup, stage: PrepareStageView) -> Option<ConnectionView> {
    match stage {
        PrepareStageView::Opening { socket } => Some(connection_of(setup, socket)),
        PrepareStageView::Closing { conn, .. } => Some(conn),
        PrepareStageView::Finished(Ok(session)) => Some(connection_of(setup, session.socket)),
        _ => match guard_of(stage) {
            Some(guard) => Some(guard.conn),
            None => None,
        },
    }
}

/// An answer leaves the connection of a stage as it is.
#[verifier::rlimit(50)]
proof fn lemma_connection_stays(setup: Setup, stage: PrepareStageView, answer: AnswerView)
    requires
        sound(setup, stage),
        !(stage is Seeding),
    ensures
        ({
            let next = next_prepare_stage(setup, stage, answer);
            &&& !(next is Seeding)
            &&& stage_connection(setup, next) is Some ==> stage_connection(setup, next)
                == stage_connection(setup, stage)
        }),
{
}

proof fn lemma_one_socket(setup: Setup, answers: Seq<AnswerView>)
    ensures
        prepare_after(setup, answers) is Seeding <==> first_seed(answers) is None,
        stage_connection(setup, prepare_after(setup, answers)) matches Some(conn) ==> (first_seed(
            answers,
        ) matches Some(seed) && conn == drawn_connection(setup, seed)),
    decreases answers.len(),
{
    if answers.len() > 0 {
        let earlier = answers.drop_last();
        let stage = prepare_after(setup, earlier);
        lemma_one_socket(setup, earlier);
        lemma_prepare_holds(setup, earlier);
        if !(stage is Seeding) {
            lemma_connection_stays(setup, stage, answers.last());
        }
    }
}

/// The stage of entering a session after answers.
pub open spec fn enter_after(setup: EnterSetup, answers: Seq<AnswerView>) -> EnterStageView
    decreases answers.len(),
{
    if answers.len() == 0 {
        first_enter_stage(setup)
    } else {
        next_enter_stage(enter_after(setup, answers.drop_last()), answers.last())
    }
}

/// The control connections that are open after answers, where that of the
/// session is open when it is entered.
pub open spec fn enter_open(setup: EnterSetup, answers: Seq<AnswerView>) -> Set<ConnectionView>
    decreases answers.len(),
{
    if answers.len() == 0 {
        set![session_connection(setup)]
    } else {
        connections_after(
            enter_open(setup, answers.drop_last()),
            enter_request(setup, enter_after(setup, answers.drop_last())),
            answers.last(),
        )
    }
}

/// Entering a session closes its connection afterwards, whatever comes of the
/// session: the connection is open until entering is finished, and not after.
pub proof fn law_entering_closes_the_connection(setup: EnterSetup, answers: Seq<AnswerView>)
    ensures
        enter_open(setup, answers) == (if enter_after(setup, answers) is Finished {
            Set::empty()
        } else {
            set![session_connection(setup)]
        }),
    decreases answers.len(),
{
    lemma_entering(setup, answers);
    if answers.len() > 0 {
        law_entering_closes_the_connection(setup, answers.drop_last());
        lemma_entering(setup, answers.drop_last());
        assert(set![session_connection(setup)].remove(session_connection(setup)) =~= Set::empty());
    }
}

/// What the stages of entering a session hold.
proof fn lemma_entering(setup: EnterSetup, answers: Seq<AnswerView>)
    ensures
        match enter_after(setup, answers) {
            EnterStageView::Running { guard } => guard.conn == session_connection(setup)
                && !guard.disarmed,
            EnterStageView::Closing { conn, .. } => conn == session_connection(setup),
            EnterStageView::Finished(_) => true,
        },
    decreases answers.len(),
{
    if answers.len() > 0 {
        lemma_entering(setup, answers.drop_last());
    }
}

/// Entering a session takes two requests: the launcher is run on a terminal, and
/// then the connection is closed. What the session ended with is kept.
pub proof fn law_entering_runs_the_launcher(setup: EnterSetup, ending: Ending, closed: bool)
    ensures
        enter_request(setup, first_enter_stage(setup)) == Some(
            RequestView::Remote(
                session_connection(setup),
                RemoteStepView::Interactive {
                    command: launcher_path(setup.session.remote_root),
                    use_waypipe: setup.use_waypipe,
                },
            ),
        ),
        enter_request(setup, enter_after(setup, seq![AnswerView::Ended(ending)])) == Some(
            RequestView::Remote(session_connection(setup), RemoteStepView::Close),
        ),
        enter_after(setup, seq![AnswerView::Ended(ending), AnswerView::Done(closed)])
            == EnterStageView::Finished(ending),
{
    let one = seq![AnswerView::Ended(ending)];
    let two = seq![AnswerView::Ended(ending), AnswerView::Done(closed)];
    assert(one.drop_last() =~= seq![]);
    assert(two.drop_last() =~= one);
    assert(enter_after(setup, one.drop_last()) == first_enter_stage(setup));
    assert(enter_after(setup, one) == next_enter_stage(first_enter_stage(setup), one.last()));
}

/// The stage of a clean-up after answers.
pub open spec fn clean_after(setup: CleanSetup, answers: Seq<AnswerView>) -> CleanStageView
    decreases answers.len(),
{
    if answers.len() == 0 {
        CleanStageView::FindingHome
    } else {
        next_clean_stage(setup, clean_after(setup, answers.drop_last()), answers.last())
    }
}

/// The control connections that a clean-up has open after answers.
pub open spec fn clean_open(setup: CleanSetup, answers: Seq<AnswerView>) -> Set<ConnectionView>
    decreases answers.len(),
{
    if answers.len() == 0 {
        Set::empty()
    } else {
        connections_after(
            clean_open(setup, answers.drop_last()),
            clean_request(setup, clean_after(setup, answers.drop_last())),
            answers.last(),
        )
    }
}

/// The control connections that a stage of a clean-up holds.
spec fn clean_held(stage: CleanStageView) -> Set<ConnectionView> {
    match stage {
        CleanStageView::Checking { guard, .. } => set![guard.conn],
        CleanStageView::Removing { guard, .. } => set![guard.conn],
        CleanStageView::Forgetting { guard, .. } => set![guard.conn],
        CleanStageView::Closing { conn, .. } => set![conn],
        _ => Set::empty(),
    }
}

/// Whether a stage of a clean-up owes the close of its connection.
spec fn clean_armed(stage: CleanStageView) -> bool {
    match stage {
        CleanStageView::Checking { guard, .. } => !guard.disarmed,
        CleanStageView::Removing { guard, .. } => !guard.disarmed,
        CleanStageView::Forgetting { guard, .. } => !guard.disarmed,
        _ => true,
    }
}

proof fn lemma_clean_holds(setup: CleanSetup, answers: Seq<AnswerView>)
    ensures
        clean_armed(clean_after(setup, answers)),
        clean_open(setup, answers) == clean_held(clean_after(setup, answers)),
    decreases answers.len(),
{
    if answers.len() > 0 {
        lemma_clean_holds(setup, answers.drop_last());
        let stage = clean_after(setup, answers.drop_last());
        assert(connections_after(
            clean_held(stage),
            clean_request(setup, stage),
            answers.last(),
        ) =~= clean_held(next_clean_stage(setup, stage, answers.last())));
    }
}

/// A clean-up leaves no control connection behind: whatever is answered, none is
/// open once it is finished.
pub proof fn law_clean_up_leaves_no_connection_behind(setup: CleanSetup, answers: Seq<AnswerView>)
    ensures
        clean_after(setup, answers) is Finished ==> clean_open(setup, answers) == Set::<
            ConnectionView,
        >::empty(),
        clean_open(setup, answers).len() <= 1,
{
    lemma_clean_holds(setup, answers);
    match clean_after(setup, answers) {
        CleanStageView::Checking { guard, .. } => {
            assert(Set::<ConnectionView>::empty().insert(guard.conn).len() == 1);
        },
        CleanStageView::Removing { guard, .. } => {
            assert(Set::<ConnectionView>::empty().insert(guard.conn).len() == 1);
        },
        CleanStageView::Forgetting { guard, .. } => {
            assert(Set::<ConnectionView>::empty().insert(guard.conn).len() == 1);
        },
        CleanStageView::Closing { conn, .. } => {
            assert(Set::<ConnectionView>::empty().insert(conn).len() == 1);
        },
        _ => {},
    }
}

/// How far a clean-up is from its end.
pub open spec fn clean_distance(stage: CleanStageView) -> int {
    match stage {
        CleanStageView::FindingHome => 9,
        CleanStageView::MakingDir { .. } => 8,
        CleanStageView::Loading { .. } => 7,
        CleanStageView::Seeding { .. } => 6,
        CleanStageView::Opening { .. } => 5,
        CleanStageView::Checking { .. } => 4,
        CleanStageView::Removing { .. } => 3,
        CleanStageView::Forgetting { .. } => 2,
        CleanStageView::Closing { .. } => 1,
        CleanStageView::Finished(_) => 0,
    }
}

/// A clean-up that is not finished asks for something, and every fitting answer
/// brings it closer to its end.
pub proof fn law_clean_up_advances(setup: CleanSetup, stage: CleanStageView, answer: AnswerView)
    ensures
        clean_request(setup, stage) is Some <==> !(stage is Finished),
        (clean_request(setup, stage) matches Some(request) && fits(request, answer)) ==> 0
            <= clean_distance(next_clean_stage(setup, stage, answer)) < clean_distance(stage),
{
}

/// Whether `answers` hold what a removal rests on: the home directory, after it a
/// record whose directory may be deleted, and after that a marker that was read
/// and is that of the record.
pub open spec fn removal_is_due(answers: Seq<AnswerView>, record: StateRecordView) -> bool {
    exists|h: int, i: int, j: int|
        #![trigger answers[h], answers[i], answers[j]]
        record_is_found(answers, record, h, i) && i < j < answers.len() && (
        answers[j] matches AnswerView::Output(output) && marker_matches(output, record.marker))
}

/// Whether the home directory was told at position `h` and a record loaded at
/// position `i` whose directory may be deleted.
pub open spec fn record_is_found(
    answers: Seq<AnswerView>,
    record: StateRecordView,
    h: int,
    i: int,
) -> bool {
    &&& 0 <= h < i < answers.len()
    &&& answers[h] matches AnswerView::Homes(_, home) && removal_verdict(
        record.remote_root,
        home,
    ) is Ok
    &&& answers[i] == AnswerView::Record(Some(record))
}

/// Whether `answers` hold a record whose directory may be deleted.
spec fn has_record(answers: Seq<AnswerView>, record: StateRecordView) -> bool {
    exists|h: int, i: int|
        #![trigger answers[h], answers[i]]
        record_is_found(answers, record, h, i)
}

/// Whether `answers` hold a home directory.
spec fn has_home(answers: Seq<AnswerView>, home: Option<Seq<char>>) -> bool {
    exists|h: int|
        0 <= h < answers.len() && (#[trigger] answers[h] matches AnswerView::Homes(_, told) && told
            == home)
}

/// What the stages of a clean-up rest on.
spec fn grounded(answers: Seq<AnswerView>, stage: CleanStageView) -> bool {
    match stage {
        CleanStageView::MakingDir { home, .. } => has_home(answers, home),
        CleanStageView::Loading { home, .. } => has_home(answers, home),
        CleanStageView::Seeding { record, .. } => has_record(answers, record),
        CleanStageView::Opening { record, .. } => has_record(answers, record),
        CleanStageView::Checking { record, .. } => has_record(answers, record),
        CleanStageView::Removing { record, .. } => removal_is_due(answers, record),
        _ => true,
    }
}

proof fn lemma_grounded(setup: CleanSetup, answers: Seq<AnswerView>)
    ensures
        grounded(answers, clean_after(setup, answers)),
    decreases answers.len(),
{
    if answers.len() > 0 {
        let earlier = answers.drop_last();
        let last = answers.len() - 1;
        let stage = clean_after(setup, earlier);
        lemma_grounded(setup, earlier);
        assert(answers[last] == answers.last());
        match stage {
            CleanStageView::MakingDir { home, .. } => {
                lemma_home_stays(answers, home);
            },
            CleanStageView::Loading { home, .. } => {
                lemma_home_stays(answers, home);
                if let CleanStageView::Seeding { record, .. } = clean_after(setup, answers) {
                    let h = choose|h: int|
                        0 <= h < earlier.len() && (#[trigger] earlier[h] matches AnswerView::Homes(
                            _,
                            told,
                        ) && told == home);
                    assert(answers[h] == earlier[h]);
                    assert(record_is_found(answers, record, h, last));
                }
            },
            CleanStageView::Seeding { record, .. } => {
                lemma_record_stays(answers, record);
            },
            CleanStageView::Opening { record, .. } => {
                lemma_record_stays(answers, record);
            },
            CleanStageView::Checking { record, .. } => {
                lemma_record_stays(answers, record);
                if clean_after(setup, answers) is Removing {
                    let (h, i) = choose|h: int, i: int|
                        #![trigger earlier[h], earlier[i]]
                        record_is_found(earlier, record, h, i);
                    assert(answers[h] == earlier[h]);
                    assert(answers[i] == earlier[i]);
                    assert(record_is_found(answers, record, h, i));
                    assert(answers[last] == answers.last());
                }
            },
            CleanStageView::Removing { record, .. } => {
                if clean_after(setup, answers) is Removing {
                    let (h, i, j) = choose|h: int, i: int, j: int|
                        #![trigger earlier[h], earlier[i], earlier[j]]
                        record_is_found(earlier, record, h, i) && i < j < earlier.len() && (
                        earlier[j] matches AnswerView::Output(output) && marker_matches(
                            output,
                            record.marker,
                        ));
                    assert(answers[h] == earlier[h]);
                    assert(answers[i] == earlier[i]);
                    assert(answers[j] == earlier[j]);
                    assert(record_is_found(answers, record, h, i));
                }
            },
            _ => {},
        }
    }
}

proof fn lemma_home_stays(answers: Seq<AnswerView>, home: Option<Seq<char>>)
    requires
        answers.len() > 0,
        has_home(answers.drop_last(), home),
    ensures
        has_home(answers, home),
{
    let earlier = answers.drop_last();
    let h = choose|h: int|
        0 <= h < earlier.len() && (#[trigger] earlier[h] matches AnswerView::Homes(_, told) && told
            == home);
    assert(answers[h] == earlier[h]);
}

proof fn lemma_record_stays(answers: Seq<AnswerView>, record: StateRecordView)
    requires
        answers.len() > 0,
        has_record(answers.drop_last(), record),
    ensures
        has_record(answers, record),
{
    let earlier = answers.drop_last();
    let (h, i) = choose|h: int, i: int|
        #![trigger earlier[h], earlier[i]]
        record_is_found(earlier, record, h, i);
    assert(answers[h] == earlier[h]);
    assert(answers[i] == earlier[i]);
    assert(record_is_found(answers, record, h, i));
}

/// A clean-up removes nothing unguarded: whatever is answered, the only command
/// that it runs for its status removes the directory of the record that was
/// loaded, once that directory was found to be one that may be deleted and the
/// marker read there is that of the record.
pub proof fn law_removal_is_guarded(setup: CleanSetup, answers: Seq<AnswerView>)
    ensures
        clean_request(setup, clean_after(setup, answers)) matches Some(
            RequestView::Remote(_, RemoteStepView::Status(command)),
        ) ==> exists|record: StateRecordView| #[trigger]
            removal_is_due(answers, record) && command == remove_command(record.remote_root),
{
    lemma_grounded(setup, answers);
    if let CleanStageView::Removing { record, .. } = clean_after(setup, answers) {
        assert(removal_is_due(answers, record));
    }
}

/// A clean-up forgets a session only when its directory is gone: whatever is
/// answered, the record is removed only after the removal was answered with
/// success, and once the clean-up has failed it was not.
pub proof fn law_record_outlives_a_failure(setup: CleanSetup, answers: Seq<AnswerView>)
    ensures
        clean_after(setup, answers) is Forgetting ==> answers.contains(
            AnswerView::Status(Some(true)),
        ),
        clean_after(setup, answers) matches CleanStageView::Finished(Err(_)) ==> forall|n: int|
            0 <= n <= answers.len() ==> !(#[trigger] clean_after(setup, answers.take(n)) is Forgetting),
    decreases answers.len(),
{
    if answers.len() > 0 {
        law_record_outlives_a_failure(setup, answers.drop_last());
        assert(answers.last() == answers[answers.len() - 1]);
        if clean_after(setup, answers) is Forgetting {
            if clean_after(setup, answers.drop_last()) is Forgetting {
                let i = answers.drop_last().index_of(AnswerView::Status(Some(true)));
                assert(answers[i] == AnswerView::Status(Some(true)));
            }
        }
    }
    if clean_after(setup, answers) matches CleanStageView::Finished(Err(_)) {
        assert forall|n: int| 0 <= n <= answers.len() implies !(#[trigger] clean_after(
            setup,
            answers.take(n),
        ) is Forgetting) by {
            if clean_after(setup, answers.take(n)) is Forgetting {
                lemma_forgetting_ends_well(setup, answers, n);
            }
        }
    }
}

/// Once the record is being removed, the clean-up ends well.
proof fn lemma_forgetting_ends_well(setup: CleanSetup, answers: Seq<AnswerView>, n: int)
    requires
        0 <= n <= answers.len(),
        clean_after(setup, answers.take(n)) is Forgetting,
    ensures
        ends_well(clean_after(setup, answers)),
    decreases answers.len(),
{
    if n == answers.len() {
        assert(answers.take(n) =~= answers);
    } else {
        assert(answers.drop_last().take(n) =~= answers.take(n));
        lemma_forgetting_ends_well(setup, answers.drop_last(), n);
    }
}

/// Whether a stage can only end well.
spec fn ends_well(stage: CleanStageView) -> bool {
    match stage {
        CleanStageView::Forgetting { .. } => true,
        CleanStageView::Closing { outcome, .. } => outcome is Ok,
        CleanStageView::Finished(outcome) => outcome is Ok,
        _ => false,
    }
}

} // verus!

//! Getting a FreeLLMAPI server ready, step by step.
use vstd::prelude::*;

use crate::text;

verus! {

/// How long a server that was started has to report that it is healthy, in milliseconds.
pub const FREELLMAPI_STARTUP_TIMEOUT_MS: u64 = 15_000;

/// How long to wait between two checks of a server's health, in milliseconds.
pub const FREELLMAPI_POLL_INTERVAL_MS: u64 = 500;

/// Why no API key was had. Each but the last comes with what was reported.
pub enum KeyFault {
    Client(String),
    Request(String),
    Status(String),
    Body(String),
    Empty,
}

/// Why a server did not get ready.
pub enum ReadyError {
    NotRunning,
    StartFailed { dir: String, cause: String },
    NeverHealthy { dir: String },
    KeyUnavailable(KeyFault),
}

/// How far a server has come.
pub enum Stage {
    /// It is asked for its health for the first time.
    Probing,
    /// It is not running; its directory is looked for.
    Locating,
    /// It is started from its directory.
    Starting { dir: String },
    /// It was started and is asked for its health.
    Waiting { dir: String },
    /// It was not healthy yet; some time goes by before it is asked again.
    Pausing { dir: String },
    /// It is healthy and is asked for its API key.
    Fetching,
    /// It is ready.
    Ready { api_key: String },
    /// It did not get ready.
    Failed(ReadyError),
}

/// What is to be done next to get a server ready.
#[derive(Clone, Copy, Debug, PartialEq, Eq, Structural)]
pub enum Action {
    CheckHealth,
    FindServer,
    StartServer,
    Pause,
    FetchKey,
    Finish,
}

/// What came of an action.
pub enum Event {
    /// The status with which the server answered, if it answered.
    Health(Option<u16>),
    /// The server's directory, if one was found.
    Located(Option<String>),
    /// Whether the server could be started; if not, why.
    Started(Result<(), String>),
    /// A pause is over, and that much time has gone by since the server was started.
    Paused { elapsed_ms: u64 },
    /// The API key that the server handed out, or why none was had.
    Key(Result<String, KeyFault>),
}

/// Whether a server that answered with this status is healthy.
pub open spec fn healthy(status: Option<u16>) -> bool {
    status matches Some(code) && 200 <= code <= 299
}

/// The key, if it is not blank.
pub open spec fn accepted_key(reply: Result<String, KeyFault>) -> Result<String, KeyFault> {
    match reply {
        Ok(key) => if text::trimmed(key@).len() == 0 {
            Err(KeyFault::Empty)
        } else {
            Ok(key)
        },
        Err(fault) => Err(fault),
    }
}

/// The action that a stage calls for.
pub open spec fn action_at(stage: Stage) -> Action {
    match stage {
        Stage::Probing => Action::CheckHealth,
        Stage::Locating => Action::FindServer,
        Stage::Starting { .. } => Action::StartServer,
        Stage::Waiting { .. } => Action::CheckHealth,
        Stage::Pausing { .. } => Action::Pause,
        Stage::Fetching => Action::FetchKey,
        Stage::Ready { .. } => Action::Finish,
        Stage::Failed(_) => Action::Finish,
    }
}

/// The stage that an event leads to. An event that does not answer the action of the stage
/// changes nothing.
pub open spec fn stage_after(stage: Stage, event: Event) -> Stage {
    match (stage, event) {
        (Stage::Probing, Event::Health(status)) => if healthy(status) {
            Stage::Fetching
        } else {
            Stage::Locating
        },
        (Stage::Locating, Event::Located(Some(dir))) => Stage::Starting { dir },
        (Stage::Locating, Event::Located(None)) => Stage::Failed(ReadyError::NotRunning),
        (Stage::Starting { dir }, Event::Started(Ok(_))) => Stage::Waiting { dir },
        (Stage::Starting { dir }, Event::Started(Err(cause))) => Stage::Failed(
            ReadyError::StartFailed { dir, cause },
        ),
        (Stage::Waiting { dir }, Event::Health(status)) => if healthy(status) {
            Stage::Fetching
        } else {
            Stage::Pausing { dir }
        },
        (Stage::Pausing { dir }, Event::Paused { elapsed_ms }) => if elapsed_ms
            < FREELLMAPI_STARTUP_TIMEOUT_MS {
            Stage::Waiting { dir }
        } else {
            Stage::Failed(ReadyError::NeverHealthy { dir })
        },
        (Stage::Fetching, Event::Key(reply)) => match accepted_key(reply) {
            Ok(api_key) => Stage::Ready { api_key },
            Err(fault) => Stage::Failed(ReadyError::KeyUnavailable(fault)),
        },
        (stage, _) => stage,
    }
}

/// Whether a server that answered with this status is healthy.
pub fn is_healthy(status: Option<u16>) -> (yes: bool)
    ensures
        yes == healthy(status),
{
    match status {
        Some(code) => 200 <= code && code <= 299,
        None => false,
    }
}

/// The key that a server handed out, if it is not blank.
pub fn accept_api_key(reply: Result<String, KeyFault>) -> (key: Result<String, KeyFault>)
    ensures
        key == accepted_key(reply),
{
    match reply {
        Ok(key) => {
            if text::trim(key.as_str()).is_empty() {
                Err(KeyFault::Empty)
            } else {
                Ok(key)
            }
        },
        Err(fault) => Err(fault),
    }
}

/// The action that a stage calls for.
pub fn next_action(stage: &Stage) -> (action: Action)
    ensures
        action == action_at(*stage),
{
    match stage {
        Stage::Probing => Action::CheckHealth,
        Stage::Locating => Action::FindServer,
        Stage::Starting { .. } => Action::StartServer,
        Stage::Waiting { .. } => Action::CheckHealth,
        Stage::Pausing { .. } => Action::Pause,
        Stage::Fetching => Action::FetchKey,
        Stage::Ready { .. } => Action::Finish,
        Stage::Failed(_) => Action::Finish,
    }
}

/// The stage that an event leads to.
pub fn ensure_ready(stage: Stage, event: Event) -> (next: Stage)
    ensures
        next == stage_after(stage, event),
{
    match (stage, event) {
        (Stage::Probing, Event::Health(status)) => if is_healthy(status) {
            Stage::Fetching
        } else {
            Stage::Locating
        },
        (Stage::Locating, Event::Located(Some(dir))) => Stage::Starting { dir },
        (Stage::Locating, Event::Located(None)) => Stage::Failed(ReadyError::NotRunning),
        (Stage::Starting { dir }, Event::Started(Ok(_))) => Stage::Waiting { dir },
        (Stage::Starting { dir }, Event::Started(Err(cause))) => Stage::Failed(
            ReadyError::StartFailed { dir, cause },
        ),
        (Stage::Waiting { dir }, Event::Health(status)) => if is_healthy(status) {
            Stage::Fetching
        } else {
            Stage::Pausing { dir }
        },
        (Stage::Pausing { dir }, Event::Paused { elapsed_ms }) => if elapsed_ms
            < FREELLMAPI_STARTUP_TIMEOUT_MS {
            Stage::Waiting { dir }
        } else {
            Stage::Failed(ReadyError::NeverHealthy { dir })
        },
        (Stage::Fetching, Event::Key(reply)) => match accept_api_key(reply) {
            Ok(api_key) => Stage::Ready { api_key },
            Err(fault) => Stage::Failed(ReadyError::KeyUnavailable(fault)),
        },
        (stage, _) => stage,
    }
}

/// What is said of a fault with the API key, the most general first.
pub open spec fn fault_messages(fault: KeyFault) -> Seq<Seq<char>> {
    match fault {
        KeyFault::Client(cause) => seq!["Failed to build HTTP client for FreeLLMAPI"@, cause@],
        KeyFault::Request(cause) => seq!["FreeLLMAPI API key request failed"@, cause@],
        KeyFault::Status(cause) => seq!["FreeLLMAPI API key endpoint returned an error"@, cause@],
        KeyFault::Body(cause) => seq!["Failed to parse FreeLLMAPI API key response"@, cause@],
        KeyFault::Empty => seq!["FreeLLMAPI returned an empty API key"@],
    }
}

/// What is said of a server at `origin` that did not get ready, the most general first.
pub open spec fn error_messages(err: ReadyError, origin: Seq<char>) -> Seq<Seq<char>> {
    match err {
        ReadyError::NotRunning => seq![
            "FreeLLMAPI is not running at "@ + origin
                + " and no local checkout was found. Set FREELLMAPI_ROOT or start the server manually."@,
        ],
        ReadyError::StartFailed { dir, cause } => seq![
            "Failed to start FreeLLMAPI from "@ + dir@,
            cause@,
        ],
        ReadyError::NeverHealthy { dir } => seq![
            "FreeLLMAPI did not become ready after starting from "@ + dir@,
            "FreeLLMAPI never reported healthy at "@ + origin,
        ],
        ReadyError::KeyUnavailable(fault) => seq![
            "Failed to fetch FreeLLMAPI API key from "@ + origin + "/api/settings/api-key"@,
        ] + fault_messages(fault),
    }
}

/// One text after another.
fn concat(first: &str, second: &str) -> (both: String)
    ensures
        both@ == first@ + second@,
{
    let mut both = String::from_str(first);
    both.append(second);
    both
}

/// A message and its cause.
fn with_cause(message: String, cause: &String) -> (list: Vec<String>)
    ensures
        text::texts(list@) == seq![message@, cause@],
{
    let mut list: Vec<String> = Vec::new();
    list.push(message);
    list.push(cause.clone());
    assert(text::texts(list@) =~= seq![message@, cause@]);
    list
}

/// What is said of a fault with the API key, the most general first.
fn fault_chain(fault: &KeyFault) -> (list: Vec<String>)
    ensures
        text::texts(list@) == fault_messages(*fault),
{
    match fault {
        KeyFault::Client(cause) => with_cause(
            String::from_str("Failed to build HTTP client for FreeLLMAPI"),
            cause,
        ),
        KeyFault::Request(cause) => with_cause(
            String::from_str("FreeLLMAPI API key request failed"),
            cause,
        ),
        KeyFault::Status(cause) => with_cause(
            String::from_str("FreeLLMAPI API key endpoint returned an error"),
            cause,
        ),
        KeyFault::Body(cause) => with_cause(
            String::from_str("Failed to parse FreeLLMAPI API key response"),
            cause,
        ),
        KeyFault::Empty => {
            let mut list: Vec<String> = Vec::new();
            list.push(String::from_str("FreeLLMAPI returned an empty API key"));
            assert(text::texts(list@) =~= fault_messages(*fault));
            list
        },
    }
}

/// What is said of a server at `origin` that did not get ready, the most general first.
pub fn error_chain(err: &ReadyError, origin: &str) -> (list: Vec<String>)
    ensures
        text::texts(list@) == error_messages(*err, origin@),
{
    match err {
        ReadyError::NotRunning => {
            let mut list: Vec<String> = Vec::new();
            let mut message = concat("FreeLLMAPI is not running at ", origin);
            message.append(
                " and no local checkout was found. Set FREELLMAPI_ROOT or start the server manually.",
            );
            list.push(message);
            assert(text::texts(list@) =~= error_messages(*err, origin@));
            list
        },
        ReadyError::StartFailed { dir, cause } => with_cause(
            concat("Failed to start FreeLLMAPI from ", dir.as_str()),
            cause,
        ),
        ReadyError::NeverHealthy { dir } => {
            let cause = concat("FreeLLMAPI never reported healthy at ", origin);
            with_cause(
                concat("FreeLLMAPI did not become ready after starting from ", dir.as_str()),
                &cause,
            )
        },
        ReadyError::KeyUnavailable(fault) => {
            let mut list: Vec<String> = Vec::new();
            let mut message = concat("Failed to fetch FreeLLMAPI API key from ", origin);
            message.append("/api/settings/api-key");
            list.push(message);
            let mut rest = fault_chain(fault);
            let ghost head = text::texts(list@);
            let ghost tail = text::texts(rest@);
            list.append(&mut rest);
            assert(text::texts(list@) =~= head + tail);
            assert(head =~= seq![message@]);
            list
        },
    }
}

/// The stage that a run of events leads to.
pub open spec fn stage_after_all(stage: Stage, events: Seq<Event>) -> Stage
    decreases events.len(),
{
    if events.len() == 0 {
        stage
    } else {
        stage_after(stage_after_all(stage, events.drop_last()), events.last())
    }
}

/// Whether a server has answered that it is healthy.
pub open spec fn has_answered(events: Seq<Event>) -> bool {
    exists|i: int|
        0 <= i < events.len() && ((#[trigger] events[i]) matches Event::Health(status) && healthy(
            status,
        ))
}

/// Whether a server was found not to be running before its directory was.
pub open spec fn was_missed_and_found(events: Seq<Event>) -> bool {
    exists|i: int, j: int|
        0 <= i < j < events.len() && ((#[trigger] events[i]) matches Event::Health(status)
            && !healthy(status)) && ((#[trigger] events[j]) matches Event::Located(dir)
            && dir is Some)
}

proof fn lemma_run(events: Seq<Event>)
    ensures
        ({
            let stage = stage_after_all(Stage::Probing, events);
            &&& stage is Fetching || stage is Ready ==> has_answered(events)
            &&& stage matches Stage::Ready { api_key } ==> text::trimmed(api_key@).len() > 0
            &&& stage is Locating ==> exists|i: int|
                0 <= i < events.len() && ((#[trigger] events[i]) matches Event::Health(status)
                    && !healthy(status))
            &&& stage is Starting || stage is Waiting || stage is Pausing ==> was_missed_and_found(
                events,
            )
        }),
    decreases events.len(),
{
    if events.len() > 0 {
        let shorter = events.drop_last();
        let n = events.len() - 1;
        lemma_run(shorter);
        let before = stage_after_all(Stage::Probing, shorter);
        let after = stage_after_all(Stage::Probing, events);
        assert(events[n] == events.last());
        if has_answered(shorter) {
            let i = choose|i: int|
                0 <= i < shorter.len() && ((#[trigger] shorter[i]) matches Event::Health(status)
                    && healthy(status));
            assert(events[i] == shorter[i]);
            assert(has_answered(events));
        }
        if before is Locating {
            let i = choose|i: int|
                0 <= i < shorter.len() && ((#[trigger] shorter[i]) matches Event::Health(status)
                    && !healthy(status));
            assert(events[i] == shorter[i]);
            if after is Starting {
                assert(was_missed_and_found(events)) by {
                    assert(events[i] matches Event::Health(status) && !healthy(status));
                    assert(events[n] matches Event::Located(dir) && dir is Some);
                }
            }
        }
        if was_missed_and_found(shorter) {
            let (i, j) = choose|i: int, j: int|
                0 <= i < j < shorter.len() && ((#[trigger] shorter[i]) matches Event::Health(
                    status,
                ) && !healthy(status)) && ((#[trigger] shorter[j]) matches Event::Located(dir)
                    && dir is Some);
            assert(events[i] == shorter[i] && events[j] == shorter[j]);
            assert(was_missed_and_found(events));
        }
    }
}

/// A server is asked for its key, and is ready, only once it has answered that it is healthy; and
/// the key of a server that is ready is not blank.
pub proof fn law_ready_server_has_answered(events: Seq<Event>)
    ensures
        action_at(stage_after_all(Stage::Probing, events)) == Action::FetchKey ==> has_answered(
            events,
        ),
        stage_after_all(Stage::Probing, events) is Ready ==> has_answered(events),
        stage_after_all(Stage::Probing, events) matches Stage::Ready { api_key }
            ==> text::trimmed(api_key@).len() > 0,
{
    lemma_run(events);
}

/// A server is started only if it was not running and its directory was found.
pub proof fn law_only_missing_server_is_started(events: Seq<Event>)
    ensures
        action_at(stage_after_all(Stage::Probing, events)) == Action::StartServer
            ==> was_missed_and_found(events),
{
    lemma_run(events);
}

/// What is over stays over.
pub proof fn law_end_is_final(stage: Stage, events: Seq<Event>)
    requires
        action_at(stage) == Action::Finish,
    ensures
        stage_after_all(stage, events) == stage,
    decreases events.len(),
{
    if events.len() > 0 {
        law_end_is_final(stage, events.drop_last());
    }
}

/// A check of a server that was not healthy, and the time at which the pause after it ended.
pub struct FailedCheck {
    pub status: Option<u16>,
    pub elapsed_ms: u64,
}

/// Whether none of the checks found the server healthy.
pub open spec fn none_healthy(checks: Seq<FailedCheck>) -> bool {
    forall|i: int| 0 <= i < checks.len() ==> !healthy((#[trigger] checks[i]).status)
}

/// Whether every pause ended before the timeout.
pub open spec fn all_in_time(checks: Seq<FailedCheck>) -> bool {
    forall|i: int|
        0 <= i < checks.len() ==> (#[trigger] checks[i]).elapsed_ms < FREELLMAPI_STARTUP_TIMEOUT_MS
}

/// The events of a run of checks, each with the pause after it.
pub open spec fn check_events(checks: Seq<FailedCheck>) -> Seq<Event>
    decreases checks.len(),
{
    if checks.len() == 0 {
        seq![]
    } else {
        check_events(checks.drop_last()).push(Event::Health(checks.last().status)).push(
            Event::Paused { elapsed_ms: checks.last().elapsed_ms },
        )
    }
}

/// The wait for a server that is not healthy goes on exactly as long as no pause has ended at the
/// timeout or later.
pub proof fn law_wait_ends_at_the_timeout(dir: String, checks: Seq<FailedCheck>)
    requires
        none_healthy(checks),
    ensures
        stage_after_all(Stage::Waiting { dir }, check_events(checks)) == (if all_in_time(checks) {
            Stage::Waiting { dir }
        } else {
            Stage::Failed(ReadyError::NeverHealthy { dir })
        }),
    decreases checks.len(),
{
    if checks.len() > 0 {
        let shorter = checks.drop_last();
        let last = checks[checks.len() - 1];
        assert forall|i: int| 0 <= i < shorter.len() implies !healthy(
            (#[trigger] shorter[i]).status,
        ) by {
            assert(shorter[i] == checks[i]);
        }
        law_wait_ends_at_the_timeout(dir, shorter);
        let earlier = check_events(shorter);
        let checked = earlier.push(Event::Health(last.status));
        let all = check_events(checks);
        assert(all.drop_last() =~= checked);
        assert(checked.drop_last() =~= earlier);
        let before = stage_after_all(Stage::Waiting { dir }, earlier);
        assert(stage_after_all(Stage::Waiting { dir }, checked) == stage_after(
            before,
            Event::Health(last.status),
        ));
        assert(!healthy(last.status));
        assert(all_in_time(checks) == (all_in_time(shorter) && last.elapsed_ms
            < FREELLMAPI_STARTUP_TIMEOUT_MS)) by {
            assert forall|i: int| 0 <= i < shorter.len() && all_in_time(checks) implies (
            #[trigger] shorter[i]).elapsed_ms < FREELLMAPI_STARTUP_TIMEOUT_MS by {
                assert(shorter[i] == checks[i]);
            }
            assert forall|i: int|
                0 <= i < checks.len() && all_in_time(shorter) && last.elapsed_ms
                    < FREELLMAPI_STARTUP_TIMEOUT_MS implies (#[trigger] checks[i]).elapsed_ms
                < FREELLMAPI_STARTUP_TIMEOUT_MS by {
                if i < shorter.len() {
                    assert(shorter[i] == checks[i]);
                }
            }
        }
    }
}

/// A server that never gets healthy is given up after no more checks than there are pauses before
/// the timeout, if each pause takes its time.
pub proof fn law_wait_is_bounded(dir: String, checks: Seq<FailedCheck>)
    requires
        none_healthy(checks),
        forall|i: int|
            0 <= i < checks.len() ==> (#[trigger] checks[i]).elapsed_ms >= (i + 1)
                * FREELLMAPI_POLL_INTERVAL_MS,
        checks.len() >= FREELLMAPI_STARTUP_TIMEOUT_MS / FREELLMAPI_POLL_INTERVAL_MS,
    ensures
        stage_after_all(Stage::Waiting { dir }, check_events(checks)) == Stage::Failed(
            ReadyError::NeverHealthy { dir },
        ),
{
    law_wait_ends_at_the_timeout(dir, checks);
    let k = FREELLMAPI_STARTUP_TIMEOUT_MS / FREELLMAPI_POLL_INTERVAL_MS - 1;
    assert(checks[k].elapsed_ms >= (k + 1) * FREELLMAPI_POLL_INTERVAL_MS);
}

/// A server is healthy exactly if it answers with a status of the two hundreds.
pub proof fn law_healthy_statuses(code: u16)
    ensures
        healthy(Some(code)) <==> code / 100 == 2,
        !healthy(None),
{
}

/// A key is taken as it is, unless it is blank.
pub proof fn law_key_is_not_blank(key: String, fault: KeyFault)
    ensures
        text::is_blank(key@) ==> accepted_key(Ok(key)) == Err::<String, KeyFault>(KeyFault::Empty),
        !text::is_blank(key@) ==> accepted_key(Ok(key)) == Ok::<String, KeyFault>(key),
        accepted_key(Err(fault)) == Err::<String, KeyFault>(fault),
{
    text::law_trimming_a_blank_text(key@);
}

/// A run of events is one part of it after the other.
pub proof fn law_run_of_parts(stage: Stage, a: Seq<Event>, b: Seq<Event>, event: Event)
    ensures
        stage_after_all(stage, a + b) == stage_after_all(stage_after_all(stage, a), b),
        stage_after_all(stage, seq![event]) == stage_after(stage, event),
    decreases b.len(),
{
    assert(seq![event].drop_last() =~= seq![]);
    reveal_with_fuel(stage_after_all, 2);
    if b.len() == 0 {
        assert(a + b =~= a);
    } else {
        assert((a + b).drop_last() =~= a + b.drop_last());
        law_run_of_parts(stage, a, b.drop_last(), event);
    }
}

/// Whether an event tells what came of an action.
pub open spec fn answers(event: Event, action: Action) -> bool {
    match action {
        Action::CheckHealth => event is Health,
        Action::FindServer => event is Located,
        Action::StartServer => event is Started,
        Action::Pause => event is Paused,
        Action::FetchKey => event is Key,
        Action::Finish => false,
    }
}

/// What came of the action that a stage calls for leads on to another stage; any other event
/// changes nothing.
pub proof fn law_answers_lead_on(stage: Stage, event: Event)
    ensures
        answers(event, action_at(stage)) ==> stage_after(stage, event) != stage,
        !answers(event, action_at(stage)) ==> stage_after(stage, event) == stage,
{
}

/// Which action a stage calls for.
pub proof fn law_actions(dir: String, api_key: String, err: ReadyError)
    ensures
        action_at(Stage::Probing) == Action::CheckHealth,
        action_at(Stage::Locating) == Action::FindServer,
        action_at(Stage::Starting { dir }) == Action::StartServer,
        action_at(Stage::Waiting { dir }) == Action::CheckHealth,
        action_at(Stage::Pausing { dir }) == Action::Pause,
        action_at(Stage::Fetching) == Action::FetchKey,
        action_at(Stage::Ready { api_key }) == Action::Finish,
        action_at(Stage::Failed(err)) == Action::Finish,
{
}

/// The end of a healthy server's run, given its reply to the question for its key.
pub open spec fn end_with_key(reply: Result<String, KeyFault>) -> Stage {
    match reply {
        Ok(api_key) => if text::is_blank(api_key@) {
            Stage::Failed(ReadyError::KeyUnavailable(KeyFault::Empty))
        } else {
            Stage::Ready { api_key }
        },
        Err(fault) => Stage::Failed(ReadyError::KeyUnavailable(fault)),
    }
}

proof fn lemma_fetching(reply: Result<String, KeyFault>)
    ensures
        stage_after(Stage::Fetching, Event::Key(reply)) == end_with_key(reply),
{
    if let Ok(key) = reply {
        law_key_is_not_blank(key, KeyFault::Empty);
    }
}

/// A server that is running is asked for its key at once, and is ready with the key that it hands
/// out.
pub proof fn law_running_server(code: u16, reply: Result<String, KeyFault>)
    requires
        200 <= code <= 299,
    ensures
        stage_after_all(
            Stage::Probing,
            seq![Event::Health(Some(code)), Event::Key(reply)],
        ) == end_with_key(reply),
{
    let events = seq![Event::Health(Some(code)), Event::Key(reply)];
    lemma_fetching(reply);
    reveal_with_fuel(stage_after_all, 3);
    assert(events.drop_last().drop_last() =~= seq![]);
    assert(events.drop_last().last() == Event::Health(Some(code)));
}

/// A server that is not running is looked for. It is given up if it is not found or does not start,
/// and waited for if it starts.
pub proof fn law_missing_server(status: Option<u16>, dir: String, cause: String)
    requires
        status matches Some(code) ==> !(200 <= code <= 299),
    ensures
        stage_after_all(Stage::Probing, seq![Event::Health(status), Event::Located(None)])
            == Stage::Failed(ReadyError::NotRunning),
        stage_after_all(
            Stage::Probing,
            seq![Event::Health(status), Event::Located(Some(dir)), Event::Started(Err(cause))],
        ) == Stage::Failed(ReadyError::StartFailed { dir, cause }),
        stage_after_all(
            Stage::Probing,
            seq![Event::Health(status), Event::Located(Some(dir)), Event::Started(Ok(()))],
        ) == (Stage::Waiting { dir }),
{
    let first = Event::Health(status);
    let none = Stage::Probing;
    law_run_of_parts(none, seq![first], seq![Event::Located(None)], first);
    assert(seq![first] + seq![Event::Located(None)] =~= seq![first, Event::Located(None)]);
    let found = Event::Located(Some(dir));
    law_run_of_parts(none, seq![first], seq![found], found);
    law_run_of_parts(stage_after(none, first), seq![], seq![], found);
    assert(seq![first] + seq![found] =~= seq![first, found]);
    law_run_of_parts(Stage::Locating, seq![], seq![], Event::Located(None));
    law_run_of_parts(none, seq![], seq![], first);
    let failed = Event::Started(Err(cause));
    let started = Event::Started(Ok(()));
    law_run_of_parts(none, seq![first, found], seq![failed], failed);
    law_run_of_parts(none, seq![first, found], seq![started], started);
    law_run_of_parts(Stage::Starting { dir }, seq![], seq![], failed);
    law_run_of_parts(Stage::Starting { dir }, seq![], seq![], started);
    assert(seq![first, found] + seq![failed] =~= seq![first, found, failed]);
    assert(seq![first, found] + seq![started] =~= seq![first, found, started]);
}

/// A server that was started is asked for its health until it is healthy, as long as there is time;
/// then it is asked for its key, and is ready with the key that it hands out.
pub proof fn law_started_server(
    dir: String,
    checks: Seq<FailedCheck>,
    code: u16,
    reply: Result<String, KeyFault>,
)
    requires
        none_healthy(checks),
        all_in_time(checks),
        200 <= code <= 299,
    ensures
        stage_after_all(
            Stage::Waiting { dir },
            check_events(checks) + seq![Event::Health(Some(code)), Event::Key(reply)],
        ) == end_with_key(reply),
{
    let last = seq![Event::Health(Some(code)), Event::Key(reply)];
    law_wait_ends_at_the_timeout(dir, checks);
    law_run_of_parts(Stage::Waiting { dir }, check_events(checks), last, last[0]);
    lemma_fetching(reply);
    reveal_with_fuel(stage_after_all, 3);
    assert(last.drop_last().drop_last() =~= seq![]);
    assert(last.drop_last().last() == Event::Health(Some(code)));
}

/// How long a server that was started has, and how long the pauses are.
pub proof fn law_times()
    ensures
        FREELLMAPI_STARTUP_TIMEOUT_MS == 15 * 1000,
        2 * FREELLMAPI_POLL_INTERVAL_MS == 1000,
{
}

/// What is said of a server that did not get ready: what was tried, with the address or the
/// directory, and then the cause, as it was reported.
pub proof fn law_messages(dir: String, cause: String, origin: Seq<char>)
    ensures
        error_messages(ReadyError::NotRunning, origin) == seq![
            "FreeLLMAPI is not running at "@ + origin
                + " and no local checkout was found. Set FREELLMAPI_ROOT or start the server manually."@,
        ],
        error_messages(ReadyError::StartFailed { dir, cause }, origin) == seq![
            "Failed to start FreeLLMAPI from "@ + dir@,
            cause@,
        ],
        error_messages(ReadyError::NeverHealthy { dir }, origin) == seq![
            "FreeLLMAPI did not become ready after starting from "@ + dir@,
            "FreeLLMAPI never reported healthy at "@ + origin,
        ],
        error_messages(ReadyError::KeyUnavailable(KeyFault::Client(cause)), origin) == seq![
            "Failed to fetch FreeLLMAPI API key from "@ + origin + "/api/settings/api-key"@,
            "Failed to build HTTP client for FreeLLMAPI"@,
            cause@,
        ],
        error_messages(ReadyError::KeyUnavailable(KeyFault::Request(cause)), origin) == seq![
            "Failed to fetch FreeLLMAPI API key from "@ + origin + "/api/settings/api-key"@,
            "FreeLLMAPI API key request failed"@,
            cause@,
        ],
        error_messages(ReadyError::KeyUnavailable(KeyFault::Status(cause)), origin) == seq![
            "Failed to fetch FreeLLMAPI API key from "@ + origin + "/api/settings/api-key"@,
            "FreeLLMAPI API key endpoint returned an error"@,
            cause@,
        ],
        error_messages(ReadyError::KeyUnavailable(KeyFault::Body(cause)), origin) == seq![
            "Failed to fetch FreeLLMAPI API key from "@ + origin + "/api/settings/api-key"@,
            "Failed to parse FreeLLMAPI API key response"@,
            cause@,
        ],
        error_messages(ReadyError::KeyUnavailable(KeyFault::Empty), origin) == seq![
            "Failed to fetch FreeLLMAPI API key from "@ + origin + "/api/settings/api-key"@,
            "FreeLLMAPI returned an empty API key"@,
        ],
{
    let head = seq![
        "Failed to fetch FreeLLMAPI API key from "@ + origin + "/api/settings/api-key"@,
    ];
    assert(head + fault_messages(KeyFault::Client(cause)) =~= seq![
        head[0],
        "Failed to build HTTP client for FreeLLMAPI"@,
        cause@,
    ]);
    assert(head + fault_messages(KeyFault::Request(cause)) =~= seq![
        head[0],
        "FreeLLMAPI API key request failed"@,
        cause@,
    ]);
    assert(head + fault_messages(KeyFault::Status(cause)) =~= seq![
        head[0],
        "FreeLLMAPI API key endpoint returned an error"@,
        cause@,
    ]);
    assert(head + fault_messages(KeyFault::Body(cause)) =~= seq![
        head[0],
        "Failed to parse FreeLLMAPI API key response"@,
        cause@,
    ]);
    assert(head + fault_messages(KeyFault::Empty) =~= seq![
        head[0],
        "FreeLLMAPI returned an empty API key"@,
    ]);
}

} // verus!

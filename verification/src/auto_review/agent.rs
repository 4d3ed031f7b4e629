//! The review agents: when they are due, how they are set up, and what becomes of their outcome.
use vstd::prelude::*;

use crate::auto_review::areas;
use crate::auto_review::areas::ReviewArea;
use crate::auto_review::changes;
use crate::auto_review::changes::{ReviewableChange, TurnFileSnapshot};
use crate::auto_review::notification;
use crate::auto_review::prompt;
use crate::path::prefix::System;
use crate::text;

verus! {

/// What a conversation gives its tools to work with. `S` stands for what a review shares with the
/// conversation, `H` for the history of file changes, `N` for the way to notify the conversation,
/// `P` for its pending permission requests, and `Q` for the way to put a question to the user.
pub struct ToolContext<S, H, N, P, Q> {
    pub shared: S,
    pub file_history: H,
    pub current_turn: usize,
    pub completion_notifier: Option<N>,
    pub pending_permissions: Option<P>,
    pub user_question_tx: Option<Q>,
}

/// Whether a context is cut off from the conversation: it notifies nobody and asks nobody.
pub open spec fn is_cut_off<S, H, N, P, Q>(ctx: ToolContext<S, H, N, P, Q>) -> bool {
    &&& ctx.current_turn == 0
    &&& ctx.completion_notifier is None
    &&& ctx.pending_permissions is None
    &&& ctx.user_question_tx is None
}

/// The context of a review agent: it shares what every agent shares, has a history of its own,
/// and is cut off from the conversation.
pub fn isolated_review_context<S: Clone, H, N, P, Q>(
    tool_ctx: &ToolContext<S, H, N, P, Q>,
    fresh_history: H,
) -> (review_ctx: ToolContext<S, H, N, P, Q>)
    ensures
        cloned(tool_ctx.shared, review_ctx.shared),
        review_ctx.file_history == fresh_history,
        is_cut_off(review_ctx),
        review_ctx.current_turn == 0,
        review_ctx.completion_notifier is None,
        review_ctx.pending_permissions is None,
        review_ctx.user_question_tx is None,
{
    ToolContext {
        shared: tool_ctx.shared.clone(),
        file_history: fresh_history,
        current_turn: 0,
        completion_notifier: None,
        pending_permissions: None,
        user_question_tx: None,
    }
}

/// How a query is run. `S` stands for what all queries of a session share (styles, effort, cost
/// limits, registries), `E` for what only the conversation itself has (its command queue, skills
/// and agents).
pub struct QueryConfig<S, E> {
    pub model: String,
    pub max_tokens: u32,
    pub max_turns: u32,
    pub system_prompt: Option<String>,
    pub append_system_prompt: Option<String>,
    pub output_style_prompt: Option<String>,
    pub working_directory: Option<String>,
    pub thinking_budget: Option<u32>,
    pub tool_result_budget: usize,
    pub fallback_model: Option<String>,
    pub agent_name: Option<String>,
    pub shared: S,
    pub extras: Option<E>,
}

/// How many tokens a review agent may write at most.
pub const MAX_REVIEW_TOKENS: u32 = 4_096;

/// How many turns a review agent has.
pub const REVIEW_TURNS: u32 = 6;

/// How large the tool results of a review agent may be at most.
pub const MAX_REVIEW_TOOL_RESULTS: usize = 20_000;

/// The smaller of two numbers.
pub open spec fn lesser(a: int, b: int) -> int {
    if a < b {
        a
    } else {
        b
    }
}

/// The configuration of a review agent for one area: the conversation's own, with tighter limits
/// and the prompt and the name of such an agent, and without what only the conversation has.
pub fn review_query_config<S: Clone, E>(
    config: &QueryConfig<S, E>,
    subagent_model: &str,
    working_dir: &str,
    area: &ReviewArea,
) -> (review: QueryConfig<S, E>)
    ensures
        review.model@ == subagent_model@,
        review.max_tokens == lesser(config.max_tokens as int, MAX_REVIEW_TOKENS as int),
        review.max_tokens <= config.max_tokens && review.max_tokens <= 4_096,
        review.max_tokens == config.max_tokens || review.max_tokens == 4_096,
        review.max_turns == REVIEW_TURNS,
        review.max_turns == 6,
        review.system_prompt matches Some(text) && text@ == prompt::system_prompt_for(*area),
        review.append_system_prompt is None,
        review.output_style_prompt == config.output_style_prompt,
        review.working_directory matches Some(dir) && dir@ == working_dir@,
        review.thinking_budget == config.thinking_budget,
        review.tool_result_budget == lesser(
            config.tool_result_budget as int,
            MAX_REVIEW_TOOL_RESULTS as int,
        ),
        review.tool_result_budget <= config.tool_result_budget && review.tool_result_budget
            <= 20_000,
        review.tool_result_budget == config.tool_result_budget || review.tool_result_budget
            == 20_000,
        review.fallback_model is None,
        review.agent_name matches Some(name) && name@ == "auto-review-"@ + area.id_text(),
        cloned(config.shared, review.shared),
        review.extras is None,
{
    let mut agent_name = String::from_str("auto-review-");
    agent_name.append(area.id());
    let review = QueryConfig {
        model: String::from_str(subagent_model),
        max_tokens: if config.max_tokens < MAX_REVIEW_TOKENS {
            config.max_tokens
        } else {
            MAX_REVIEW_TOKENS
        },
        max_turns: REVIEW_TURNS,
        system_prompt: Some(prompt::review_system_prompt(area)),
        append_system_prompt: None,
        output_style_prompt: config.output_style_prompt.clone(),
        working_directory: Some(String::from_str(working_dir)),
        thinking_budget: config.thinking_budget,
        tool_result_budget: if config.tool_result_budget < MAX_REVIEW_TOOL_RESULTS {
            config.tool_result_budget
        } else {
            MAX_REVIEW_TOOL_RESULTS
        },
        fallback_model: None,
        agent_name: Some(agent_name),
        shared: config.shared.clone(),
        extras: None,
    };
    review
}

/// The positions of the names that are allowed, in ascending order.
pub open spec fn allowed_positions(names: Seq<Seq<char>>, allowed: Seq<Seq<char>>) -> Seq<int>
    decreases names.len(),
{
    if names.len() == 0 {
        seq![]
    } else {
        let earlier = allowed_positions(names.drop_last(), allowed);
        if allowed.contains(names.last()) {
            earlier.push(names.len() - 1)
        } else {
            earlier
        }
    }
}

/// Whether a text is one of a list.
fn is_one_of(name: &str, list: &[&str]) -> (yes: bool)
    ensures
        yes == text::views(list@).contains(name@),
{
    let mut i: usize = 0;
    while i < list.len()
        invariant
            i <= list@.len(),
            forall|j: int| 0 <= j < i ==> (#[trigger] list@[j])@ != name@,
        decreases list@.len() - i,
    {
        if text::same_text(list[i], name) {
            assert(text::views(list@)[i as int] == name@);
            return true;
        }
        i = i + 1;
    }
    proof {
        assert forall|j: int| 0 <= j < list@.len() implies text::views(list@)[j] != name@ by {
            assert(list@[j]@ != name@);
        }
    }
    false
}

/// The tools that a review agent gets: the positions of those whose name is allowed, in the order
/// of the tools.
pub fn build_review_tools(tool_names: &[&str], allowed: &[&str]) -> (kept: Vec<usize>)
    ensures
        kept@.map_values(|k: usize| k as int) == allowed_positions(
            text::views(tool_names@),
            text::views(allowed@),
        ),
{
    let ghost names = text::views(tool_names@);
    let mut kept: Vec<usize> = Vec::new();
    let mut i: usize = 0;
    assert(names.take(0) =~= seq![]);
    assert(kept@.map_values(|k: usize| k as int) =~= seq![]);
    while i < tool_names.len()
        invariant
            i <= tool_names@.len(),
            names == text::views(tool_names@),
            kept@.map_values(|k: usize| k as int) == allowed_positions(
                names.take(i as int),
                text::views(allowed@),
            ),
        decreases tool_names@.len() - i,
    {
        let ghost before = kept@.map_values(|k: usize| k as int);
        proof {
            assert(names.take(i + 1).drop_last() =~= names.take(i as int));
            assert(names.take(i + 1).last() == tool_names@[i as int]@);
        }
        if is_one_of(tool_names[i], allowed) {
            kept.push(i);
            assert(kept@.map_values(|k: usize| k as int) =~= before.push(i as int));
        }
        i = i + 1;
    }
    assert(names.take(tool_names@.len() as int) =~= names);
    kept
}

/// A review agent to start: its area, how its task is described and named, and its prompt.
pub struct ReviewJob {
    pub area: ReviewArea,
    pub task_description: String,
    pub task_name: String,
    pub prompt: String,
}

/// A review to start: what it is about, and its agents.
pub struct AutoReview {
    pub changes: Vec<ReviewableChange>,
    pub jobs: Vec<ReviewJob>,
}

/// Whether a job is the one for an area and a list of changes.
pub open spec fn is_job_for(
    job: ReviewJob,
    area: ReviewArea,
    changes: Seq<ReviewableChange>,
) -> bool {
    &&& job.area == area
    &&& job.task_description@ == "auto-review: "@ + area.label_text()
    &&& job.task_name@ == "auto-review "@ + area.id_text()
    &&& job.prompt@ == prompt::review_prompt(area, changes)
}

/// Whether a review is due: it is switched on, there is a way to tell of it, and there is
/// something to review.
pub open spec fn review_is_due<S, H, N, P, Q>(
    tool_ctx: ToolContext<S, H, N, P, Q>,
    auto_review_enabled: bool,
    snapshots: Seq<TurnFileSnapshot>,
    working_dir: Seq<char>,
    system: System,
) -> bool {
    &&& auto_review_enabled
    &&& tool_ctx.completion_notifier is Some
    &&& changes::collected_changes(snapshots, working_dir, system).len() > 0
}

/// The job for an area and a list of changes.
fn review_job(area: ReviewArea, changes: &[ReviewableChange]) -> (job: ReviewJob)
    ensures
        is_job_for(job, area, changes@),
{
    let mut task_description = String::from_str("auto-review: ");
    task_description.append(area.label());
    let mut task_name = String::from_str("auto-review ");
    task_name.append(area.id());
    ReviewJob {
        area,
        task_description,
        task_name,
        prompt: prompt::build_review_prompt(&area, changes),
    }
}

/// The review to start after a turn, given what the turn did to files: one job for each area that
/// the changes call for, or nothing if no review is due.
pub fn maybe_spawn_auto_review<S, H, N, P, Q>(
    tool_ctx: &ToolContext<S, H, N, P, Q>,
    auto_review_enabled: bool,
    snapshots: &[TurnFileSnapshot],
    working_dir: &str,
    system: System,
) -> (review: Option<AutoReview>)
    ensures
        review is Some <==> review_is_due(
            *tool_ctx,
            auto_review_enabled,
            snapshots@,
            working_dir@,
            system,
        ),
        review matches Some(r) ==> {
            &&& changes::change_views(r.changes@) == changes::collected_changes(
                snapshots@,
                working_dir@,
                system,
            )
            &&& r.jobs@.len() == areas::areas_for(r.changes@).len()
            &&& forall|i: int|
                0 <= i < r.jobs@.len() ==> is_job_for(
                    #[trigger] r.jobs@[i],
                    areas::areas_for(r.changes@)[i],
                    r.changes@,
                )
        },
{
    if !auto_review_enabled {
        return None;
    }
    if tool_ctx.completion_notifier.is_none() {
        return None;
    }
    let changes = changes::collect_reviewable_changes(snapshots, working_dir, system);
    assert(changes::change_views(changes@).len() == changes@.len());
    if changes.len() == 0 {
        return None;
    }
    let areas = areas::selected_review_areas(changes.as_slice());
    let mut jobs: Vec<ReviewJob> = Vec::new();
    let mut i: usize = 0;
    while i < areas.len()
        invariant
            i <= areas@.len(),
            jobs@.len() == i,
            areas@ == areas::areas_for(changes@),
            forall|j: int|
                0 <= j < i ==> is_job_for(#[trigger] jobs@[j], areas@[j], changes@),
        decreases areas@.len() - i,
    {
        jobs.push(review_job(areas[i], changes.as_slice()));
        i = i + 1;
    }
    Some(AutoReview { changes, jobs })
}

/// A review is due exactly if it is switched on, there is a way to tell of it, and the turn has
/// left a snapshot that deserves a review.
pub proof fn law_review_is_due<S, H, N, P, Q>(
    tool_ctx: ToolContext<S, H, N, P, Q>,
    auto_review_enabled: bool,
    snapshots: Seq<TurnFileSnapshot>,
    working_dir: Seq<char>,
    system: System,
)
    ensures
        review_is_due(tool_ctx, auto_review_enabled, snapshots, working_dir, system) <==> {
            &&& auto_review_enabled
            &&& tool_ctx.completion_notifier is Some
            &&& exists|j: int|
                0 <= j < snapshots.len() && changes::deserves_review(
                    #[trigger] snapshots[j],
                    system,
                )
        },
{
    changes::law_collected_changes(snapshots, working_dir, system);
}

/// An agent that works in a context cut off from the conversation starts no review of its own.
pub proof fn law_no_review_of_a_review<S, H, N, P, Q>(
    review_ctx: ToolContext<S, H, N, P, Q>,
    auto_review_enabled: bool,
    snapshots: Seq<TurnFileSnapshot>,
    working_dir: Seq<char>,
    system: System,
)
    requires
        is_cut_off(review_ctx),
    ensures
        !review_is_due(review_ctx, auto_review_enabled, snapshots, working_dir, system),
{
}

/// How a query ended. Messages stand for all their text, amounts of money for their text with four
/// decimals.
pub enum QueryOutcome {
    EndTurn { message: String },
    MaxTokens { partial_message: String },
    Cancelled,
    Error(String),
    BudgetExceeded { cost_usd: String, limit_usd: String },
}

/// How a background task stands once it is over.
pub enum TaskStatus {
    Completed,
    Failed(String),
}

/// What a review reports when its query has ended.
pub open spec fn outcome_text(outcome: QueryOutcome) -> Seq<char> {
    match outcome {
        QueryOutcome::EndTurn { message } => message@,
        QueryOutcome::MaxTokens { partial_message } => partial_message@
            + "\n\n[Note: Auto-review hit max_tokens limit]"@,
        QueryOutcome::Cancelled => "[Agent stopped: auto-review was cancelled]"@,
        QueryOutcome::Error(err) => "[Agent error: "@ + err@ + "]"@,
        QueryOutcome::BudgetExceeded { cost_usd, limit_usd } =>
            "[Agent stopped: auto-review exceeded budget $"@ + cost_usd@ + " / $"@ + limit_usd@
                + "]"@,
    }
}

/// What a review reports when its query has ended.
pub fn outcome_to_text(outcome: QueryOutcome) -> (report: String)
    ensures
        report@ == outcome_text(outcome),
{
    match outcome {
        QueryOutcome::EndTurn { message } => message,
        QueryOutcome::MaxTokens { partial_message } => {
            let mut report = partial_message;
            report.append("\n\n[Note: Auto-review hit max_tokens limit]");
            report
        },
        QueryOutcome::Cancelled => String::from_str("[Agent stopped: auto-review was cancelled]"),
        QueryOutcome::Error(err) => {
            let mut report = String::from_str("[Agent error: ");
            report.append(err.as_str());
            report.append("]");
            report
        },
        QueryOutcome::BudgetExceeded { cost_usd, limit_usd } => {
            let mut report = String::from_str("[Agent stopped: auto-review exceeded budget $");
            report.append(cost_usd.as_str());
            report.append(" / $");
            report.append(limit_usd.as_str());
            report.append("]");
            report
        },
    }
}

/// Whether a report says that the agent failed or was stopped.
pub open spec fn tells_of_failure(report: Seq<char>) -> bool {
    ||| "[Agent error:"@.is_prefix_of(report)
    ||| "[Agent stopped:"@.is_prefix_of(report)
}

/// What a review agent comes to: no client for it could be made, or its query ended.
pub enum ReviewEvent {
    ClientFailed(String),
    Finished(QueryOutcome),
}

/// What is to be done about a review agent that is over: the output of its task, if it has one,
/// the status of the task, and what the conversation is told, if anything.
pub struct ReviewConclusion {
    pub output: Option<String>,
    pub status: TaskStatus,
    pub notification: Option<String>,
}

/// Whether a conclusion is the one that a report calls for.
pub open spec fn concludes_report(
    conclusion: ReviewConclusion,
    area: ReviewArea,
    changes: Seq<ReviewableChange>,
    report: Seq<char>,
) -> bool {
    &&& conclusion.output matches Some(output) && output@ == report
    &&& match conclusion.status {
        TaskStatus::Failed(reason) => tells_of_failure(report) && reason@ == report,
        TaskStatus::Completed => !tells_of_failure(report),
    }
    &&& match conclusion.notification {
        Some(note) => !notification::has_nothing_to_tell(report) && note@
            == notification::notification(area, changes, report),
        None => notification::has_nothing_to_tell(report),
    }
}

/// Whether a conclusion is the one that an event calls for.
pub open spec fn concludes(
    conclusion: ReviewConclusion,
    area: ReviewArea,
    changes: Seq<ReviewableChange>,
    event: ReviewEvent,
) -> bool {
    match event {
        ReviewEvent::ClientFailed(err) => {
            &&& conclusion.output is None
            &&& conclusion.status matches TaskStatus::Failed(reason) && reason@
                == "client init failed: "@ + err@
            &&& conclusion.notification is None
        },
        ReviewEvent::Finished(outcome) => concludes_report(
            conclusion,
            area,
            changes,
            outcome_text(outcome),
        ),
    }
}

/// What is to be done about a review agent that is over.
pub fn conclude_review(
    area: &ReviewArea,
    changes: &[ReviewableChange],
    event: ReviewEvent,
) -> (conclusion: ReviewConclusion)
    ensures
        concludes(conclusion, *area, changes@, event),
{
    match event {
        ReviewEvent::ClientFailed(err) => {
            let mut reason = String::from_str("client init failed: ");
            reason.append(err.as_str());
            ReviewConclusion {
                output: None,
                status: TaskStatus::Failed(reason),
                notification: None,
            }
        },
        ReviewEvent::Finished(outcome) => {
            let report = outcome_to_text(outcome);
            let failed = text::starts_with(report.as_str(), "[Agent error:") || text::starts_with(
                report.as_str(),
                "[Agent stopped:",
            );
            let status = if failed {
                TaskStatus::Failed(report.clone())
            } else {
                TaskStatus::Completed
            };
            let notification = notification::build_completion_notification(
                area,
                changes,
                report.as_str(),
            );
            ReviewConclusion { output: Some(report), status, notification }
        },
    }
}

/// Whether a query came to no end of its own: it was cancelled, failed or cost too much.
pub open spec fn was_cut_short(outcome: QueryOutcome) -> bool {
    outcome is Cancelled || outcome is Error || outcome is BudgetExceeded
}

proof fn lemma_bracketed(report: Seq<char>)
    requires
        report.len() > 0,
        report[0] == '[',
        report.last() == ']',
    ensures
        !notification::has_nothing_to_tell(report),
{
    assert(text::trimmed_start(report) == report);
    assert(text::trimmed(report) == report);
    reveal_strlit("NO_REVIEW_NEEDED:");
    if notification::NO_REVIEW_NEEDED@.is_prefix_of(report) {
        assert(report.subrange(0, notification::NO_REVIEW_NEEDED@.len() as int)[0] == 'N');
    }
}

proof fn lemma_cut_short_report(outcome: QueryOutcome)
    requires
        was_cut_short(outcome),
    ensures
        tells_of_failure(outcome_text(outcome)),
        !notification::has_nothing_to_tell(outcome_text(outcome)),
{
    let report = outcome_text(outcome);
    reveal_strlit("[Agent error:");
    reveal_strlit("[Agent stopped:");
    reveal_strlit("]");
    match outcome {
        QueryOutcome::Cancelled => {
            reveal_strlit("[Agent stopped: auto-review was cancelled]");
            assert("[Agent stopped:"@ =~= report.subrange(0, "[Agent stopped:"@.len() as int));
        },
        QueryOutcome::Error(err) => {
            reveal_strlit("[Agent error: ");
            assert("[Agent error:"@ =~= report.subrange(0, "[Agent error:"@.len() as int));
        },
        QueryOutcome::BudgetExceeded { cost_usd, limit_usd } => {
            reveal_strlit("[Agent stopped: auto-review exceeded budget $");
            assert("[Agent stopped:"@ =~= report.subrange(0, "[Agent stopped:"@.len() as int));
        },
        _ => {},
    }
    lemma_bracketed(report);
}

/// A review whose query was cut short is a failed task, and the conversation is told of it.
pub proof fn law_cut_short_review_fails(
    conclusion: ReviewConclusion,
    area: ReviewArea,
    changes: Seq<ReviewableChange>,
    outcome: QueryOutcome,
)
    requires
        was_cut_short(outcome),
        concludes(conclusion, area, changes, ReviewEvent::Finished(outcome)),
    ensures
        conclusion.status is Failed,
        conclusion.notification is Some,
{
    lemma_cut_short_report(outcome);
}

/// A review agent that answers that no review was needed has done its task, and the conversation
/// is not told.
pub proof fn law_no_review_needed_is_not_told(
    conclusion: ReviewConclusion,
    area: ReviewArea,
    changes: Seq<ReviewableChange>,
    message: String,
)
    requires
        notification::NO_REVIEW_NEEDED@.is_prefix_of(message@),
        concludes(
            conclusion,
            area,
            changes,
            ReviewEvent::Finished(QueryOutcome::EndTurn { message }),
        ),
    ensures
        conclusion.status is Completed,
        conclusion.notification is None,
{
    let marker = notification::NO_REVIEW_NEEDED@;
    reveal_strlit("NO_REVIEW_NEEDED:");
    reveal_strlit("[Agent error:");
    reveal_strlit("[Agent stopped:");
    let n = marker.len() as int;
    assert(message@[0] == message@.subrange(0, n)[0]);
    if "[Agent error:"@.is_prefix_of(message@) {
        assert(message@.subrange(0, "[Agent error:"@.len() as int)[0] == '[');
    }
    if "[Agent stopped:"@.is_prefix_of(message@) {
        assert(message@.subrange(0, "[Agent stopped:"@.len() as int)[0] == '[');
    }
    assert(text::trimmed_start(message@) == message@);
    text::lemma_trimmed_end(message@);
    let kept = text::trimmed_end(message@);
    assert(message@[n - 1] == message@.subrange(0, n)[n - 1]);
    assert(marker[n - 1] == ':');
    assert(kept.len() >= n) by {
        if kept.len() < n {
            assert(text::is_white(message@[n - 1]));
        }
    }
    assert(kept.subrange(0, n) =~= message@.subrange(0, n));
}

proof fn lemma_allowed_positions(names: Seq<Seq<char>>, allowed: Seq<Seq<char>>)
    ensures
        forall|i: int|
            0 <= i < allowed_positions(names, allowed).len() ==> {
                let k = #[trigger] allowed_positions(names, allowed)[i];
                0 <= k < names.len() && allowed.contains(names[k])
            },
        forall|i: int, j: int|
            0 <= i < j < allowed_positions(names, allowed).len() ==> (
            #[trigger] allowed_positions(names, allowed)[i]) < (#[trigger] allowed_positions(
                names,
                allowed,
            )[j]),
        forall|k: int|
            0 <= k < names.len() && allowed.contains(#[trigger] names[k]) ==> allowed_positions(
                names,
                allowed,
            ).contains(k),
    decreases names.len(),
{
    if names.len() > 0 {
        let shorter = names.drop_last();
        let earlier = allowed_positions(shorter, allowed);
        let all = allowed_positions(names, allowed);
        lemma_allowed_positions(shorter, allowed);
        assert forall|i: int| 0 <= i < all.len() implies {
            let k = #[trigger] all[i];
            0 <= k < names.len() && allowed.contains(names[k])
        } by {
            if i < earlier.len() {
                assert(all[i] == earlier[i]);
                assert(shorter[earlier[i]] == names[earlier[i]]);
            }
        }
        assert forall|i: int, j: int| 0 <= i < j < all.len() implies (#[trigger] all[i]) < (
        #[trigger] all[j]) by {
            assert(all[i] == earlier[i]);
            if j < earlier.len() {
                assert(all[j] == earlier[j]);
            }
        }
        assert forall|k: int|
            0 <= k < names.len() && allowed.contains(#[trigger] names[k]) implies all.contains(
            k,
        ) by {
            if k < shorter.len() {
                assert(shorter[k] == names[k]);
                assert(earlier.contains(k));
                let i = choose|i: int| 0 <= i < earlier.len() && earlier[i] == k;
                assert(all[i] == k);
            } else {
                assert(all[all.len() - 1] == k);
            }
        }
    }
}

/// A review agent gets exactly the tools that are allowed, each once and in their order.
pub proof fn law_review_tools(names: Seq<Seq<char>>, allowed: Seq<Seq<char>>)
    ensures
        forall|k: int|
            #![trigger allowed_positions(names, allowed).contains(k)]
            allowed_positions(names, allowed).contains(k) <==> 0 <= k < names.len()
                && allowed.contains(names[k]),
        forall|i: int, j: int|
            0 <= i < j < allowed_positions(names, allowed).len() ==> (
            #[trigger] allowed_positions(names, allowed)[i]) < (#[trigger] allowed_positions(
                names,
                allowed,
            )[j]),
{
    lemma_allowed_positions(names, allowed);
}

/// The job for an area is about that area alone: its description, its name and its prompt are the
/// area's, and its prompt is about the changes.
pub proof fn law_job_is_for_its_area(
    job: ReviewJob,
    area: ReviewArea,
    changes: Seq<ReviewableChange>,
)
    requires
        is_job_for(job, area, changes),
    ensures
        job.area == area,
        job.task_description@ == "auto-review: "@ + area.label_text(),
        job.task_name@ == "auto-review "@ + area.id_text(),
        job.prompt@ == prompt::review_prompt(area, changes),
{
}

proof fn lemma_mark_before_note(mark: Seq<char>, message: Seq<char>, note: Seq<char>)
    requires
        note.len() > 0,
        forall|i: int| 0 <= i < mark.len() ==> mark[i] != note[0],
    ensures
        mark.is_prefix_of(message + note) <==> mark.is_prefix_of(message),
{
    let n = mark.len() as int;
    if mark.is_prefix_of(message + note) {
        if n > message.len() {
            assert((message + note).subrange(0, n)[message.len() as int] == note[0]);
        }
        assert(message.subrange(0, n) =~= (message + note).subrange(0, n));
    }
    if mark.is_prefix_of(message) {
        assert((message + note).subrange(0, n) =~= message.subrange(0, n));
    }
}

/// A review whose query ended by itself or at the token limit is a completed task, whatever the
/// agent has answered, unless the answer starts as the report of an agent that failed or was stopped
/// does; and then it is a failed one.
pub proof fn law_answered_review_is_completed(
    conclusion: ReviewConclusion,
    area: ReviewArea,
    changes: Seq<ReviewableChange>,
    outcome: QueryOutcome,
    message: String,
)
    requires
        outcome == (QueryOutcome::EndTurn { message }) || outcome == (QueryOutcome::MaxTokens {
            partial_message: message,
        }),
        concludes(conclusion, area, changes, ReviewEvent::Finished(outcome)),
    ensures
        conclusion.status is Completed <==> !"[Agent error:"@.is_prefix_of(message@)
            && !"[Agent stopped:"@.is_prefix_of(message@),
{
    reveal_strlit("[Agent error:");
    reveal_strlit("[Agent stopped:");
    reveal_strlit("\n\n[Note: Auto-review hit max_tokens limit]");
    let note = "\n\n[Note: Auto-review hit max_tokens limit]"@;
    lemma_mark_before_note("[Agent error:"@, message@, note);
    lemma_mark_before_note("[Agent stopped:"@, message@, note);
}

/// The output of a review's task is what the agent has answered, or in brackets why it has not; a
/// failed task has its output for a reason.
pub proof fn law_output_of_a_review(
    conclusion: ReviewConclusion,
    area: ReviewArea,
    changes: Seq<ReviewableChange>,
    outcome: QueryOutcome,
)
    requires
        concludes(conclusion, area, changes, ReviewEvent::Finished(outcome)),
    ensures
        conclusion.output is Some,
        conclusion.status matches TaskStatus::Failed(reason) ==> reason@ == conclusion.output->0@,
        conclusion.output->0@ == match outcome {
            QueryOutcome::EndTurn { message } => message@,
            QueryOutcome::MaxTokens { partial_message } => partial_message@
                + "\n\n[Note: Auto-review hit max_tokens limit]"@,
            QueryOutcome::Cancelled => "[Agent stopped: auto-review was cancelled]"@,
            QueryOutcome::Error(err) => "[Agent error: "@ + err@ + "]"@,
            QueryOutcome::BudgetExceeded { cost_usd, limit_usd } =>
                "[Agent stopped: auto-review exceeded budget $"@ + cost_usd@ + " / $"@ + limit_usd@
                    + "]"@,
        },
{
}

/// The conversation is told of a finished review unless its output is blank or starts, but for
/// whitespace, with the mark of a review that found nothing; and what it is told is about the area,
/// the changes and the output.
pub proof fn law_review_is_told(
    conclusion: ReviewConclusion,
    area: ReviewArea,
    changes: Seq<ReviewableChange>,
    outcome: QueryOutcome,
)
    requires
        concludes(conclusion, area, changes, ReviewEvent::Finished(outcome)),
    ensures
        conclusion.notification is None <==> text::is_blank(conclusion.output->0@)
            || "NO_REVIEW_NEEDED:"@.is_prefix_of(text::trimmed(conclusion.output->0@)),
        conclusion.notification matches Some(note) ==> note@ == notification::notification(
            area,
            changes,
            conclusion.output->0@,
        ),
{
    text::law_trimming_a_blank_text(conclusion.output->0@);
}

/// A review for which no client could be made is a failed task without output, and the conversation
/// is not told.
pub proof fn law_review_without_client(
    conclusion: ReviewConclusion,
    area: ReviewArea,
    changes: Seq<ReviewableChange>,
    err: String,
)
    requires
        concludes(conclusion, area, changes, ReviewEvent::ClientFailed(err)),
    ensures
        conclusion.output is None,
        conclusion.notification is None,
        conclusion.status matches TaskStatus::Failed(reason) && reason@ == "client init failed: "@
            + err@,
{
}

} // verus!
